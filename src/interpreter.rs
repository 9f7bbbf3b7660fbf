//! The evaluator: walks expression and statement trees over one environment.
use vstd::prelude::*;
use crate::environment::{env_assign, env_define, env_get, Environment, Scopes};
use crate::error::RuntimeError;
use crate::expr::{Assign, Binary, Expr, Grouping, Literal as LiteralExpr, Unary, Variable};
use crate::number::{is_zero, num_add, num_div, num_eq, num_le, num_lt, num_mul, num_neg, num_sub, NumV, Number};
use crate::stmt::{Block, Expression, Print, Stmt, Var};
use crate::token::Token;
use crate::token_type::{Literal, TokenType, Value};
use crate::util::{value_text, Utils};

verus! {

broadcast use vstd::std_specs::vec::group_vec_axioms;

pub open spec fn invalid_operator(op: Token) -> RuntimeError {
    RuntimeError::InvalidOperator { operator: op.lexeme, line: op.line }
}

/// `==` and `!=` between a number and a string: never equal.
pub open spec fn mixed_equality(op: Token) -> Result<Value, RuntimeError> {
    if op.token_type == TokenType::EqualEqual {
        Ok(Value::Bool(false))
    } else if op.token_type == TokenType::BangEqual {
        Ok(Value::Bool(true))
    } else {
        Err(invalid_operator(op))
    }
}

/// The value of `l op r`. `nil` on either side only supports `==` and `!=`
/// (equal when both are `nil`); strings support `+`, `==`, `!=`; numbers
/// support arithmetic, comparison and equality; booleans support `==` and
/// `!=`; a number and a string are never equal. Anything else is an invalid
/// operator.
pub open spec fn binary_value(op: Token, l: Value, r: Value) -> Result<Value, RuntimeError> {
    let k = op.token_type;
    if l is Nil || r is Nil {
        if k == TokenType::EqualEqual {
            Ok(Value::Bool(l is Nil && r is Nil))
        } else if k == TokenType::BangEqual {
            Ok(Value::Bool(!(l is Nil && r is Nil)))
        } else {
            Err(invalid_operator(op))
        }
    } else {
        match l {
            Value::Str(a) => match r {
                Value::Str(b) => if k == TokenType::Plus {
                    Ok(Value::Str(a + b))
                } else if k == TokenType::EqualEqual {
                    Ok(Value::Bool(a == b))
                } else if k == TokenType::BangEqual {
                    Ok(Value::Bool(a != b))
                } else {
                    Err(invalid_operator(op))
                },
                Value::Num(_) => mixed_equality(op),
                _ => Err(invalid_operator(op)),
            },
            Value::Num(a) => match r {
                Value::Num(b) => if k == TokenType::Minus {
                    Ok(Value::Num(num_sub(a, b)))
                } else if k == TokenType::Star {
                    Ok(Value::Num(num_mul(a, b)))
                } else if k == TokenType::Slash {
                    Ok(Value::Num(num_div(a, b)))
                } else if k == TokenType::Plus {
                    Ok(Value::Num(num_add(a, b)))
                } else if k == TokenType::Greater {
                    Ok(Value::Bool(num_lt(b, a)))
                } else if k == TokenType::GreaterEqual {
                    Ok(Value::Bool(num_le(b, a)))
                } else if k == TokenType::Less {
                    Ok(Value::Bool(num_lt(a, b)))
                } else if k == TokenType::LessEqual {
                    Ok(Value::Bool(num_le(a, b)))
                } else if k == TokenType::EqualEqual {
                    Ok(Value::Bool(num_eq(a, b)))
                } else if k == TokenType::BangEqual {
                    Ok(Value::Bool(!num_eq(a, b)))
                } else {
                    Err(invalid_operator(op))
                },
                Value::Str(_) => mixed_equality(op),
                _ => Err(invalid_operator(op)),
            },
            Value::Bool(a) => match r {
                Value::Bool(b) => if k == TokenType::EqualEqual {
                    Ok(Value::Bool(a == b))
                } else if k == TokenType::BangEqual {
                    Ok(Value::Bool(a != b))
                } else {
                    Err(invalid_operator(op))
                },
                _ => Err(invalid_operator(op)),
            },
            Value::Nil => Err(invalid_operator(op)),
        }
    }
}

/// Arithmetic on two numbers always yields a number: `+ - * /` never fail
/// on numeric operands (division by zero gives an infinity or NaN).
pub proof fn lemma_number_arithmetic_total(op: Token, a: NumV, b: NumV)
    requires
        op.token_type == TokenType::Plus || op.token_type == TokenType::Minus || op.token_type
            == TokenType::Star || op.token_type == TokenType::Slash,
    ensures
        binary_value(op, Value::Num(a), Value::Num(b)) is Ok,
        binary_value(op, Value::Num(a), Value::Num(b))->Ok_0 is Num,
{
}

/// Negating a number always yields a number.
pub proof fn lemma_negation_total(op: Token, a: NumV)
    requires
        op.token_type == TokenType::Minus,
    ensures
        unary_value(op, Value::Num(a)) == Ok::<Value, RuntimeError>(Value::Num(num_neg(a))),
{
}

/// `!v`: true for zero, `nil` and `false`; false for other numbers and
/// `true`; an invalid operator on a string.
pub open spec fn not_value(op: Token, v: Value) -> Result<Value, RuntimeError> {
    match v {
        Value::Num(n) => Ok(Value::Bool(is_zero(n))),
        Value::Bool(b) => Ok(Value::Bool(!b)),
        Value::Nil => Ok(Value::Bool(true)),
        Value::Str(_) => Err(invalid_operator(op)),
    }
}

/// The value of `op v`.
pub open spec fn unary_value(op: Token, v: Value) -> Result<Value, RuntimeError> {
    if op.token_type == TokenType::Minus {
        match v {
            Value::Num(n) => Ok(Value::Num(num_neg(n))),
            _ => Err(RuntimeError::NegateNonNumber { line: op.line }),
        }
    } else if op.token_type == TokenType::Bang {
        not_value(op, v)
    } else {
        Err(invalid_operator(op))
    }
}

/// The value of `e` in `env`, and the environment after it (assignment is
/// an expression). Operands are evaluated left first; the first error wins.
pub open spec fn eval(e: Expr, env: Scopes) -> (Result<Value, RuntimeError>, Scopes)
    decreases e,
{
    match e {
        Expr::Assign(a) => {
            let (r, env1) = eval(*a.value, env);
            match r {
                Ok(v) => match env_assign(env1, a.name.lexeme@, v) {
                    Some(env2) => (Ok(v), env2),
                    None => (Err(RuntimeError::UndefinedVariable { name: a.name.lexeme, line: a.name.line }), env1),
                },
                Err(err) => (Err(err), env1),
            }
        },
        Expr::Binary(b) => {
            let (l, env1) = eval(*b.left, env);
            match l {
                Ok(lv) => {
                    let (r, env2) = eval(*b.right, env1);
                    match r {
                        Ok(rv) => (binary_value(b.operator, lv, rv), env2),
                        Err(err) => (Err(err), env2),
                    }
                },
                Err(err) => (Err(err), env1),
            }
        },
        Expr::Grouping(g) => eval(*g.expression, env),
        Expr::Literal(l) => (Ok(l.value@), env),
        Expr::Unary(u) => {
            let (r, env1) = eval(*u.right, env);
            match r {
                Ok(v) => (unary_value(u.operator, v), env1),
                Err(err) => (Err(err), env1),
            }
        },
        Expr::Variable(v) => match env_get(env, v.name.lexeme@) {
            Some(val) => (Ok(val), env),
            None => (Err(RuntimeError::UndefinedVariable { name: v.name.lexeme, line: v.name.line }), env),
        },
    }
}

pub open spec fn result_view(r: Result<Literal, RuntimeError>) -> Result<Value, RuntimeError> {
    match r {
        Ok(l) => Ok(l@),
        Err(e) => Err(e),
    }
}

/// Evaluating a literal yields the value it wraps and leaves the
/// environment as it was; evaluating it again yields that value again.
pub proof fn lemma_literal_evaluation(l: LiteralExpr, env: Scopes)
    ensures
        eval(Expr::Literal(l), env) == (Ok::<Value, RuntimeError>(l.value@), env),
        eval(Expr::Literal(l), eval(Expr::Literal(l), env).1) == eval(Expr::Literal(l), env),
{
}

/// What a run has produced so far: the environment and the lines written.
pub struct RunState {
    pub env: Scopes,
    pub output: Seq<Seq<char>>,
}

/// The effect of running statement `s` from state `st`.
pub open spec fn exec_stmt(s: Stmt, st: RunState) -> (Result<(), RuntimeError>, RunState)
    decreases s,
{
    match s {
        Stmt::Expression(x) => {
            let (r, env) = eval(*x.expression, st.env);
            match r {
                Ok(_) => (Ok(()), RunState { env, output: st.output }),
                Err(err) => (Err(err), RunState { env, output: st.output }),
            }
        },
        Stmt::Print(p) => {
            let (r, env) = eval(*p.expression, st.env);
            match r {
                Ok(v) => (Ok(()), RunState { env, output: st.output.push(value_text(v)) }),
                Err(err) => (Err(err), RunState { env, output: st.output }),
            }
        },
        Stmt::Var(v) => match v.initializer {
            None => (Ok(()), RunState { env: env_define(st.env, v.name.lexeme@, Value::Nil), output: st.output }),
            Some(init) => {
                let (r, env) = eval(*init, st.env);
                match r {
                    Ok(val) => (Ok(()), RunState { env: env_define(env, v.name.lexeme@, val), output: st.output }),
                    Err(err) => (Err(err), RunState { env, output: st.output }),
                }
            },
        },
        Stmt::Block(b) => {
            let inner = RunState { env: seq![Map::empty()] + st.env, output: st.output };
            let (r, after) = exec_block(b.statements@, inner);
            (r, RunState { env: after.env.subrange(1, after.env.len() as int), output: after.output })
        },
    }
}

/// The effect of running the statements of a block in order, up to the
/// first failure.
pub open spec fn exec_block(ss: Seq<Box<Stmt>>, st: RunState) -> (Result<(), RuntimeError>, RunState)
    decreases ss,
{
    if ss.len() == 0 {
        (Ok(()), st)
    } else {
        let (r, st1) = exec_stmt(*ss[0], st);
        match r {
            Ok(_) => exec_block(ss.subrange(1, ss.len() as int), st1),
            Err(err) => (Err(err), st1),
        }
    }
}

/// The statements of a program, run in order up to the first failure.
pub open spec fn run_program(ss: Seq<Stmt>, st: RunState) -> (Result<(), RuntimeError>, RunState)
    decreases ss.len(),
{
    if ss.len() == 0 {
        (Ok(()), st)
    } else {
        let (r, st1) = exec_stmt(ss[0], st);
        match r {
            Ok(_) => run_program(ss.subrange(1, ss.len() as int), st1),
            Err(err) => (Err(err), st1),
        }
    }
}

proof fn lemma_assign_keeps_depth(env: Scopes, name: Seq<char>, v: Value)
    ensures
        env_assign(env, name, v) is Some ==> env_assign(env, name, v)->0.len() == env.len(),
    decreases env.len(),
{
    if env.len() > 0 && !env[0].contains_key(name) {
        lemma_assign_keeps_depth(env.subrange(1, env.len() as int), name, v);
    }
}

/// Evaluation never adds or removes scopes.
proof fn lemma_eval_keeps_depth(e: Expr, env: Scopes)
    ensures
        eval(e, env).1.len() == env.len(),
    decreases e,
{
    match e {
        Expr::Assign(a) => {
            lemma_eval_keeps_depth(*a.value, env);
            lemma_assign_keeps_depth(eval(*a.value, env).1, a.name.lexeme@, eval(*a.value, env).0->Ok_0);
        },
        Expr::Binary(b) => {
            lemma_eval_keeps_depth(*b.left, env);
            lemma_eval_keeps_depth(*b.right, eval(*b.left, env).1);
        },
        Expr::Grouping(g) => lemma_eval_keeps_depth(*g.expression, env),
        Expr::Unary(u) => lemma_eval_keeps_depth(*u.right, env),
        _ => {},
    }
}

/// Running a statement never adds or removes scopes.
proof fn lemma_stmt_keeps_depth(s: Stmt, st: RunState)
    requires
        st.env.len() >= 1,
    ensures
        exec_stmt(s, st).1.env.len() == st.env.len(),
    decreases s,
{
    match s {
        Stmt::Expression(x) => lemma_eval_keeps_depth(*x.expression, st.env),
        Stmt::Print(p) => lemma_eval_keeps_depth(*p.expression, st.env),
        Stmt::Var(v) => match v.initializer {
            Some(init) => lemma_eval_keeps_depth(*init, st.env),
            None => {},
        },
        Stmt::Block(b) => {
            let inner = RunState { env: seq![Map::empty()] + st.env, output: st.output };
            lemma_block_keeps_depth(b.statements@, inner);
        },
    }
}

proof fn lemma_block_keeps_depth(ss: Seq<Box<Stmt>>, st: RunState)
    requires
        st.env.len() >= 1,
    ensures
        exec_block(ss, st).1.env.len() == st.env.len(),
    decreases ss,
{
    if ss.len() > 0 {
        lemma_stmt_keeps_depth(*ss[0], st);
        let (r, st1) = exec_stmt(*ss[0], st);
        if r is Ok {
            lemma_block_keeps_depth(ss.subrange(1, ss.len() as int), st1);
        }
    }
}

/// Runs programs: holds the environment and the lines that `print` wrote.
pub struct Interpreter {
    environment: Environment,
    output: Vec<String>,
}

impl View for Interpreter {
    type V = RunState;

    closed spec fn view(&self) -> RunState {
        RunState { env: self.environment@, output: self.output@.map_values(|s: String| s@) }
    }
}

impl Interpreter {
    pub fn new() -> (r: Interpreter)
        ensures
            r@ == (RunState { env: seq![Map::<Seq<char>, Value>::empty()], output: Seq::empty() }),
    {
        let r = Interpreter { environment: Environment::global(), output: Vec::new() };
        assert(r@.output =~= Seq::<Seq<char>>::empty());
        r
    }

    /// The current bindings.
    pub fn environment(&self) -> (r: &Environment)
        ensures
            r@ == self@.env,
    {
        &self.environment
    }

    /// The lines written by `print`, in order.
    pub fn output(&self) -> (r: &Vec<String>)
        ensures
            r@.map_values(|s: String| s@) == self@.output,
    {
        &self.output
    }

    /// Runs `stmts` in order and stops at the first that fails.
    pub fn interpret(&mut self, stmts: &Vec<Stmt>) -> (r: Result<(), RuntimeError>)
        ensures
            r == run_program(stmts@, old(self)@).0,
            final(self)@ == run_program(stmts@, old(self)@).1,
    {
        let ghost st0 = self@;
        let mut i: usize = 0;
        assert(stmts@.subrange(0, stmts@.len() as int) =~= stmts@);
        while i < stmts.len()
            invariant
                st0 == old(self)@,
                i <= stmts@.len(),
                run_program(stmts@, st0) == run_program(stmts@.subrange(i as int, stmts@.len() as int), self@),
            decreases stmts@.len() - i,
        {
            let ghost rest = stmts@.subrange(i as int, stmts@.len() as int);
            let r = self.execute(&stmts[i]);
            assert(rest[0] == stmts@[i as int]);
            assert(rest.subrange(1, rest.len() as int) =~= stmts@.subrange(i + 1, stmts@.len() as int));
            if r.is_err() {
                return r;
            }
            i = i + 1;
        }
        Ok(())
    }

    /// Evaluates one expression.
    pub fn interpret_expression(&mut self, expr: &Expr) -> (r: Result<Literal, RuntimeError>)
        ensures
            result_view(r) == eval(*expr, old(self)@.env).0,
            final(self)@ == (RunState { env: eval(*expr, old(self)@.env).1, output: old(self)@.output }),
    {
        self.evaluate(expr)
    }

    fn evaluate(&mut self, expr: &Expr) -> (r: Result<Literal, RuntimeError>)
        ensures
            result_view(r) == eval(*expr, old(self)@.env).0,
            final(self)@ == (RunState { env: eval(*expr, old(self)@.env).1, output: old(self)@.output }),
        decreases expr, 1nat,
    {
        match expr {
            Expr::Assign(a) => self.visit_assign_expr(a),
            Expr::Binary(b) => self.visit_binary_expr(b),
            Expr::Grouping(g) => self.visit_grouping_expr(g),
            Expr::Literal(l) => self.visit_literal_expr(l),
            Expr::Unary(u) => self.visit_unary_expr(u),
            Expr::Variable(v) => self.visit_variable_expr(v),
        }
    }

    fn visit_assign_expr(&mut self, expr: &Assign) -> (r: Result<Literal, RuntimeError>)
        ensures
            result_view(r) == eval(Expr::Assign(*expr), old(self)@.env).0,
            final(self)@ == (RunState { env: eval(Expr::Assign(*expr), old(self)@.env).1, output: old(self)@.output }),
        decreases Expr::Assign(*expr), 0nat,
    {
        let value = match self.evaluate(&expr.value) {
            Ok(v) => v,
            Err(e) => {
                return Err(e);
            },
        };
        match self.environment.assign(expr.name.clone(), value.clone()) {
            Ok(()) => Ok(value),
            Err(e) => Err(e),
        }
    }

    fn visit_binary_expr(&mut self, expr: &Binary) -> (r: Result<Literal, RuntimeError>)
        ensures
            result_view(r) == eval(Expr::Binary(*expr), old(self)@.env).0,
            final(self)@ == (RunState { env: eval(Expr::Binary(*expr), old(self)@.env).1, output: old(self)@.output }),
        decreases Expr::Binary(*expr), 0nat,
    {
        let left = match self.evaluate(&expr.left) {
            Ok(v) => v,
            Err(e) => {
                return Err(e);
            },
        };
        let right = match self.evaluate(&expr.right) {
            Ok(v) => v,
            Err(e) => {
                return Err(e);
            },
        };
        Interpreter::binary(&expr.operator, left, right)
    }

    /// Applies a binary operator to two values (see `binary_value`).
    pub fn binary(op: &Token, left: Literal, right: Literal) -> (r: Result<Literal, RuntimeError>)
        ensures
            result_view(r) == binary_value(*op, left@, right@),
    {
        let k = op.token_type;
        let left_nil = matches!(left, Literal::Nil);
        let right_nil = matches!(right, Literal::Nil);
        if left_nil || right_nil {
            return if k == TokenType::EqualEqual {
                Ok(Literal::Bool(left_nil && right_nil))
            } else if k == TokenType::BangEqual {
                Ok(Literal::Bool(!(left_nil && right_nil)))
            } else {
                Err(Interpreter::invalid(op))
            };
        }
        match left {
            Literal::String(a) => match right {
                Literal::String(b) => if k == TokenType::Plus {
                    let mut s = a.clone();
                    s.append(b.as_str());
                    Ok(Literal::String(s))
                } else if k == TokenType::EqualEqual {
                    Ok(Literal::Bool(a == b))
                } else if k == TokenType::BangEqual {
                    Ok(Literal::Bool(a != b))
                } else {
                    Err(Interpreter::invalid(op))
                },
                Literal::Number(_) => Interpreter::str_int_equality(op),
                _ => Err(Interpreter::invalid(op)),
            },
            Literal::Number(a) => match right {
                Literal::Number(b) => if k == TokenType::Minus {
                    Ok(Literal::Number(a.sub(&b)))
                } else if k == TokenType::Star {
                    Ok(Literal::Number(a.mul(&b)))
                } else if k == TokenType::Slash {
                    Ok(Literal::Number(a.div(&b)))
                } else if k == TokenType::Plus {
                    Ok(Literal::Number(a.add(&b)))
                } else if k == TokenType::Greater {
                    Ok(Literal::Bool(b.num_lt(&a)))
                } else if k == TokenType::GreaterEqual {
                    Ok(Literal::Bool(b.num_le(&a)))
                } else if k == TokenType::Less {
                    Ok(Literal::Bool(a.num_lt(&b)))
                } else if k == TokenType::LessEqual {
                    Ok(Literal::Bool(a.num_le(&b)))
                } else if k == TokenType::EqualEqual {
                    Ok(Literal::Bool(a.num_eq(&b)))
                } else if k == TokenType::BangEqual {
                    Ok(Literal::Bool(!a.num_eq(&b)))
                } else {
                    Err(Interpreter::invalid(op))
                },
                Literal::String(_) => Interpreter::str_int_equality(op),
                _ => Err(Interpreter::invalid(op)),
            },
            Literal::Bool(a) => match right {
                Literal::Bool(b) => if k == TokenType::EqualEqual {
                    Ok(Literal::Bool(a == b))
                } else if k == TokenType::BangEqual {
                    Ok(Literal::Bool(a != b))
                } else {
                    Err(Interpreter::invalid(op))
                },
                _ => Err(Interpreter::invalid(op)),
            },
            Literal::Nil => Err(Interpreter::invalid(op)),
        }
    }

    fn invalid(op: &Token) -> (r: RuntimeError)
        ensures
            r == invalid_operator(*op),
    {
        RuntimeError::InvalidOperator { operator: op.lexeme.clone(), line: op.line }
    }

    /// `==` and `!=` between a number and a string (see `mixed_equality`).
    pub fn str_int_equality(op: &Token) -> (r: Result<Literal, RuntimeError>)
        ensures
            result_view(r) == mixed_equality(*op),
    {
        if op.token_type == TokenType::EqualEqual {
            Ok(Literal::Bool(false))
        } else if op.token_type == TokenType::BangEqual {
            Ok(Literal::Bool(true))
        } else {
            Err(Interpreter::invalid(op))
        }
    }

    fn visit_grouping_expr(&mut self, expr: &Grouping) -> (r: Result<Literal, RuntimeError>)
        ensures
            result_view(r) == eval(Expr::Grouping(*expr), old(self)@.env).0,
            final(self)@ == (RunState { env: eval(Expr::Grouping(*expr), old(self)@.env).1, output: old(self)@.output }),
        decreases Expr::Grouping(*expr), 0nat,
    {
        self.evaluate(&expr.expression)
    }

    fn visit_literal_expr(&mut self, expr: &LiteralExpr) -> (r: Result<Literal, RuntimeError>)
        ensures
            r == Ok::<Literal, RuntimeError>(expr.value),
            result_view(r) == eval(Expr::Literal(*expr), old(self)@.env).0,
            final(self)@ == (RunState { env: eval(Expr::Literal(*expr), old(self)@.env).1, output: old(self)@.output }),
    {
        Ok(expr.value.clone())
    }

    fn visit_unary_expr(&mut self, expr: &Unary) -> (r: Result<Literal, RuntimeError>)
        ensures
            result_view(r) == eval(Expr::Unary(*expr), old(self)@.env).0,
            final(self)@ == (RunState { env: eval(Expr::Unary(*expr), old(self)@.env).1, output: old(self)@.output }),
        decreases Expr::Unary(*expr), 0nat,
    {
        let right = match self.evaluate(&expr.right) {
            Ok(v) => v,
            Err(e) => {
                return Err(e);
            },
        };
        match expr.operator.token_type {
            TokenType::Minus => match right {
                Literal::Number(n) => Ok(Literal::Number(n.neg())),
                _ => Err(RuntimeError::NegateNonNumber { line: expr.operator.line }),
            },
            TokenType::Bang => Interpreter::is_truthy(&right, &expr.operator),
            _ => Err(Interpreter::invalid(&expr.operator)),
        }
    }

    /// `!val` (see `not_value`): zero, `nil` and `false` give true.
    pub fn is_truthy(val: &Literal, operator: &Token) -> (r: Result<Literal, RuntimeError>)
        ensures
            result_view(r) == not_value(*operator, val@),
    {
        match val {
            Literal::Number(n) => Ok(Literal::Bool(n.is_zero())),
            Literal::Bool(b) => Ok(Literal::Bool(!*b)),
            Literal::Nil => Ok(Literal::Bool(true)),
            Literal::String(_) => Err(Interpreter::invalid(operator)),
        }
    }

    fn visit_variable_expr(&mut self, expr: &Variable) -> (r: Result<Literal, RuntimeError>)
        ensures
            result_view(r) == eval(Expr::Variable(*expr), old(self)@.env).0,
            final(self)@ == (RunState { env: eval(Expr::Variable(*expr), old(self)@.env).1, output: old(self)@.output }),
    {
        self.environment.get(expr.name.clone())
    }

    /// Runs one statement.
    fn execute(&mut self, stmt: &Stmt) -> (r: Result<(), RuntimeError>)
        ensures
            r == exec_stmt(*stmt, old(self)@).0,
            final(self)@ == exec_stmt(*stmt, old(self)@).1,
        decreases stmt, 1nat,
    {
        match stmt {
            Stmt::Block(b) => self.visit_block_stmt(b),
            Stmt::Expression(x) => self.visit_expression_stmt(x),
            Stmt::Print(p) => self.visit_print_stmt(p),
            Stmt::Var(v) => self.visit_var_stmt(v),
        }
    }

    fn visit_expression_stmt(&mut self, stmt: &Expression) -> (r: Result<(), RuntimeError>)
        ensures
            r == exec_stmt(Stmt::Expression(*stmt), old(self)@).0,
            final(self)@ == exec_stmt(Stmt::Expression(*stmt), old(self)@).1,
    {
        match self.evaluate(&stmt.expression) {
            Ok(_) => Ok(()),
            Err(e) => Err(e),
        }
    }

    fn visit_print_stmt(&mut self, stmt: &Print) -> (r: Result<(), RuntimeError>)
        ensures
            r == exec_stmt(Stmt::Print(*stmt), old(self)@).0,
            final(self)@ == exec_stmt(Stmt::Print(*stmt), old(self)@).1,
    {
        match self.evaluate(&stmt.expression) {
            Ok(v) => {
                let ghost before = self.output@;
                let line = Utils::print_literal(&v);
                self.output.push(line);
                assert(self.output@.map_values(|s: String| s@) =~= before.map_values(|s: String| s@).push(
                    value_text(v@),
                ));
                Ok(())
            },
            Err(e) => Err(e),
        }
    }

    fn visit_var_stmt(&mut self, stmt: &Var) -> (r: Result<(), RuntimeError>)
        ensures
            r == exec_stmt(Stmt::Var(*stmt), old(self)@).0,
            final(self)@ == exec_stmt(Stmt::Var(*stmt), old(self)@).1,
    {
        let mut val = Literal::Nil;
        match &stmt.initializer {
            Some(expr) => {
                val = match self.evaluate(expr) {
                    Ok(v) => v,
                    Err(e) => {
                        return Err(e);
                    },
                };
            },
            None => {},
        }
        self.environment.define(stmt.name.lexeme.clone(), val);
        Ok(())
    }

    /// Runs the statements of a block in a new innermost scope, which is
    /// left again whether they succeed or not.
    fn visit_block_stmt(&mut self, stmt: &Block) -> (r: Result<(), RuntimeError>)
        ensures
            r == exec_stmt(Stmt::Block(*stmt), old(self)@).0,
            final(self)@ == exec_stmt(Stmt::Block(*stmt), old(self)@).1,
        decreases Stmt::Block(*stmt), 0nat,
    {
        let ghost st0 = self@;
        proof {
            self.environment.lemma_nonempty();
        }
        let mut outer = Environment::global();
        core::mem::swap(&mut outer, &mut self.environment);
        self.environment = Environment::local(outer);
        let ghost inner = self@;
        let ghost ss = stmt.statements@;
        assert(ss.subrange(0, ss.len() as int) =~= ss);
        let mut failure: Option<RuntimeError> = None;
        let mut i: usize = 0;
        while i < stmt.statements.len() && failure.is_none()
            invariant
                ss == stmt.statements@,
                i <= ss.len(),
                self@.env.len() == inner.env.len(),
                inner.env.len() >= 2,
                exec_block(ss, inner) == match failure {
                    None => exec_block(ss.subrange(i as int, ss.len() as int), self@),
                    Some(e) => (Err::<(), RuntimeError>(e), self@),
                },
            decreases ss.len() - i,
        {
            let ghost rest = ss.subrange(i as int, ss.len() as int);
            let ghost before = self@;
            proof {
                lemma_stmt_keeps_depth(*ss[i as int], before);
                let b = Stmt::Block(*stmt);
                assert(b->Block_0 == *stmt);
                assert(decreases_to!(b => b->Block_0));
                assert(decreases_to!(b->Block_0 => b->Block_0.statements));
                assert(decreases_to!(stmt.statements => stmt.statements@));
                assert(decreases_to!(stmt.statements@ => stmt.statements@[i as int]));
            }
            match self.execute(&stmt.statements[i]) {
                Ok(()) => {},
                Err(e) => {
                    failure = Some(e);
                },
            }
            assert(rest[0] == ss[i as int]);
            assert(rest.subrange(1, rest.len() as int) =~= ss.subrange(i + 1, ss.len() as int));
            i = i + 1;
        }
        let result = match failure {
            None => Ok(()),
            Some(e) => Err(e),
        };
        assert(exec_block(ss, inner) == (result, self@));
        assert(inner == (RunState { env: seq![Map::<Seq<char>, Value>::empty()] + st0.env, output: st0.output }));
        let mut current = Environment::global();
        core::mem::swap(&mut current, &mut self.environment);
        match current.into_enclosing() {
            Some(env) => {
                self.environment = env;
            },
            None => {},
        }
        result
    }
}

} // verus!
