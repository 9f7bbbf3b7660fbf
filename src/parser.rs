//! The recursive-descent parser: one cursor over the tokens, one function
//! per precedence level, and no backtracking.
use vstd::prelude::*;
use crate::expr::{Assign, Binary, Expr, Grouping, Literal, Unary, Variable};
use crate::stmt::{Expression, Print, Stmt, Var};
use crate::error::{line_tag, line_tag_string};
use crate::scanner::{emitted_tokens, eof_token, ident_end, is_alpha, lemma_scan_one_advances, scan_from, scan_one, scanned};
use crate::token::{tokens_view, TokV, Token};
use crate::token_type::{keyword_of, keywords, lookup_in};
use crate::token_type::{Literal as LiteralValue, TokenType};

verus! {

/// What the parser was looking for when it failed.
#[derive(Clone, Copy, Debug, PartialEq, Eq, Structural)]
pub enum Expected {
    VariableName,
    SemicolonAfterVariable,
    SemicolonAfterValue,
    SemicolonAfterExpression,
    ClosingParen,
}

/// A parse error, with the line of the offending token and its lexeme
/// (`None` when it is the end of the stream).
#[derive(Debug)]
pub enum ParseError {
    ExpectedToken { line: usize, found: Option<String>, expected: Expected },
    ExpectedExpression { line: usize, found: Option<String> },
    /// The left of `=` is not a variable.
    InvalidAssignmentTarget { line: usize, found: Option<String> },
}

/// What a parse error says was expected.
pub open spec fn expected_text(what: Expected) -> Seq<char> {
    match what {
        Expected::VariableName => "Expect variable name."@,
        Expected::SemicolonAfterVariable => "Expect ';' after variable declaration."@,
        Expected::SemicolonAfterValue => "Expect ';' after value."@,
        Expected::SemicolonAfterExpression => "Expect ';' after expression."@,
        Expected::ClosingParen => "Expect ')' after expression."@,
    }
}

/// `at end` or `at 'lexeme'`.
pub open spec fn where_text(found: Option<String>) -> Seq<char> {
    match found {
        None => "Error at end: "@,
        Some(s) => "Error at '"@ + s@ + "': "@,
    }
}

/// The diagnostic for a parse error.
pub open spec fn parse_error_text(e: ParseError) -> Seq<char> {
    match e {
        ParseError::ExpectedToken { line, found, expected } => line_tag(line) + where_text(found)
            + expected_text(expected),
        ParseError::ExpectedExpression { line, found } => line_tag(line) + where_text(found) + "Expect expression."@,
        ParseError::InvalidAssignmentTarget { line, found } => line_tag(line) + where_text(found)
            + "Invalid assignment target."@,
    }
}

impl Expected {
    pub fn text(&self) -> (r: &'static str)
        ensures
            r@ == expected_text(*self),
    {
        match self {
            Expected::VariableName => "Expect variable name.",
            Expected::SemicolonAfterVariable => "Expect ';' after variable declaration.",
            Expected::SemicolonAfterValue => "Expect ';' after value.",
            Expected::SemicolonAfterExpression => "Expect ';' after expression.",
            Expected::ClosingParen => "Expect ')' after expression.",
        }
    }
}

fn append_where(r: &mut String, found: &Option<String>)
    ensures
        final(r)@ == old(r)@ + where_text(*found),
{
    match found {
        None => r.append("Error at end: "),
        Some(s) => {
            r.append("Error at '");
            r.append(s.as_str());
            r.append("': ");
        },
    }
}

impl ParseError {
    /// The diagnostic text (see `parse_error_text`).
    pub fn message(&self) -> (r: String)
        ensures
            r@ == parse_error_text(*self),
    {
        match self {
            ParseError::ExpectedToken { line, found, expected } => {
                let mut r = line_tag_string(*line);
                append_where(&mut r, found);
                r.append(expected.text());
                r
            },
            ParseError::ExpectedExpression { line, found } => {
                let mut r = line_tag_string(*line);
                append_where(&mut r, found);
                r.append("Expect expression.");
                r
            },
            ParseError::InvalidAssignmentTarget { line, found } => {
                let mut r = line_tag_string(*line);
                append_where(&mut r, found);
                r.append("Invalid assignment target.");
                r
            },
        }
    }
}

/// The lexeme a diagnostic shows for a token: none for the end of the stream.
pub open spec fn found_of(tok: Token) -> Option<String> {
    if tok.token_type == TokenType::EOF {
        None
    } else {
        Some(tok.lexeme)
    }
}

pub open spec fn at_end(t: Seq<Token>, p: int) -> bool {
    !(0 <= p < t.len()) || t[p].token_type == TokenType::EOF
}

/// Whether the token at `p` has kind `k` (never at the end of the stream).
pub open spec fn check(t: Seq<Token>, p: int, k: TokenType) -> bool {
    !at_end(t, p) && t[p].token_type == k
}

pub open spec fn expected_error(t: Seq<Token>, p: int, what: Expected) -> ParseError {
    ParseError::ExpectedToken { line: t[p].line, found: found_of(t[p]), expected: what }
}

pub open spec fn expression_error(t: Seq<Token>, p: int) -> ParseError {
    ParseError::ExpectedExpression { line: t[p].line, found: found_of(t[p]) }
}

/// The operators of the binary precedence levels: 5 equality, 4 comparison,
/// 3 term, 2 factor.
pub open spec fn level_ops(lvl: nat) -> Seq<TokenType> {
    if lvl == 5 {
        seq![TokenType::EqualEqual, TokenType::BangEqual]
    } else if lvl == 4 {
        seq![TokenType::Greater, TokenType::GreaterEqual, TokenType::Less, TokenType::LessEqual]
    } else if lvl == 3 {
        seq![TokenType::Minus, TokenType::Plus]
    } else if lvl == 2 {
        seq![TokenType::Slash, TokenType::Star]
    } else {
        Seq::empty()
    }
}

pub open spec fn unary_ops() -> Seq<TokenType> {
    seq![TokenType::Bang, TokenType::Minus]
}

/// The grammar of expressions, from position `p` at precedence level `lvl`
/// (6 assignment, 5 equality, 4 comparison, 3 term, 2 factor, 1 unary,
/// 0 primary): the result, and where the parse stopped. Assignment is
/// `IDENTIFIER = assignment` and groups to the right.
pub open spec fn parse_level(t: Seq<Token>, p: int, lvl: nat) -> (Result<Expr, ParseError>, int)
    decreases t.len() - p, lvl, 1nat,
{
    if p < 0 || p >= t.len() {
        (Err(ParseError::ExpectedExpression { line: 0, found: None }), p)
    } else if lvl == 0 {
        let tok = t[p];
        if check(t, p, TokenType::False) {
            (Ok(Expr::Literal(Literal { value: LiteralValue::Bool(false) })), p + 1)
        } else if check(t, p, TokenType::True) {
            (Ok(Expr::Literal(Literal { value: LiteralValue::Bool(true) })), p + 1)
        } else if check(t, p, TokenType::Nil) {
            (Ok(Expr::Literal(Literal { value: LiteralValue::Nil })), p + 1)
        } else if check(t, p, TokenType::Number) || check(t, p, TokenType::String) {
            match tok.literal {
                Some(v) => (Ok(Expr::Literal(Literal { value: v })), p + 1),
                None => (Err(expression_error(t, p)), p),
            }
        } else if check(t, p, TokenType::LeftParan) {
            let (r, q) = parse_level(t, p + 1, 6);
            match r {
                Ok(e) => if check(t, q, TokenType::RightParan) {
                    (Ok(Expr::Grouping(Grouping { expression: Box::new(e) })), q + 1)
                } else {
                    (Err(expected_error(t, q, Expected::ClosingParen)), q)
                },
                Err(err) => (Err(err), q),
            }
        } else if check(t, p, TokenType::Identifier) {
            (Ok(Expr::Variable(Variable { name: tok })), p + 1)
        } else {
            (Err(expression_error(t, p)), p)
        }
    } else if lvl >= 6 {
        let (r, q) = parse_level(t, p, 5);
        match r {
            Ok(e) => if p <= q < t.len() && check(t, q, TokenType::Equal) {
                let (rv, q2) = parse_level(t, q + 1, 6);
                match rv {
                    Ok(v) => match e {
                        Expr::Variable(var) => (Ok(Expr::Assign(Assign { name: var.name, value: Box::new(v) })), q2),
                        _ => (Err(ParseError::InvalidAssignmentTarget { line: t[q].line, found: found_of(t[q]) }), q2),
                    },
                    Err(err) => (Err(err), q2),
                }
            } else {
                (Ok(e), q)
            },
            Err(err) => (Err(err), q),
        }
    } else if lvl == 1 {
        if !at_end(t, p) && unary_ops().contains(t[p].token_type) {
            let (r, q) = parse_level(t, p + 1, 1);
            match r {
                Ok(e) => (Ok(Expr::Unary(Unary { operator: t[p], right: Box::new(e) })), q),
                Err(err) => (Err(err), q),
            }
        } else {
            parse_level(t, p, 0)
        }
    } else {
        let (r, q) = parse_level(t, p, (lvl - 1) as nat);
        match r {
            Ok(e) => if p <= q <= t.len() {
                level_tail(t, q, lvl, e)
            } else {
                (Ok(e), q)
            },
            Err(err) => (Err(err), q),
        }
    }
}

/// The rest of a binary level after its first operand `left`: each operator
/// of the level and the operand after it fold to the left.
pub open spec fn level_tail(t: Seq<Token>, p: int, lvl: nat, left: Expr) -> (Result<Expr, ParseError>, int)
    decreases t.len() - p, lvl, 0nat,
{
    if 0 <= p < t.len() && lvl >= 1 && !at_end(t, p) && level_ops(lvl).contains(t[p].token_type) {
        let (r, q) = parse_level(t, p + 1, (lvl - 1) as nat);
        match r {
            Ok(right) => {
                let e = Expr::Binary(Binary { left: Box::new(left), operator: t[p], right: Box::new(right) });
                if p + 1 <= q <= t.len() {
                    level_tail(t, q, lvl, e)
                } else {
                    (Ok(e), q)
                }
            },
            Err(err) => (Err(err), q),
        }
    } else {
        (Ok(left), p)
    }
}

/// An expression.
pub open spec fn parse_expression(t: Seq<Token>, p: int) -> (Result<Expr, ParseError>, int) {
    parse_level(t, p, 6)
}

/// `;` at `q` ends statement `st`.
pub open spec fn expect_semicolon(t: Seq<Token>, q: int, what: Expected, st: Stmt) -> (Result<Stmt, ParseError>, int) {
    if check(t, q, TokenType::Semicolon) {
        (Ok(st), q + 1)
    } else {
        (Err(expected_error(t, q, what)), q)
    }
}

/// The grammar of one declaration or statement from position `p`:
/// `var name (= expression)? ;`, `print expression ;` or `expression ;`.
pub open spec fn parse_declaration(t: Seq<Token>, p: int) -> (Result<Stmt, ParseError>, int) {
    if check(t, p, TokenType::Var) {
        if check(t, p + 1, TokenType::Identifier) {
            let name = t[p + 1];
            if check(t, p + 2, TokenType::Equal) {
                let (r, q) = parse_expression(t, p + 3);
                match r {
                    Ok(e) => expect_semicolon(
                        t,
                        q,
                        Expected::SemicolonAfterVariable,
                        Stmt::Var(Var { name, initializer: Some(Box::new(e)) }),
                    ),
                    Err(err) => (Err(err), q),
                }
            } else {
                expect_semicolon(t, p + 2, Expected::SemicolonAfterVariable, Stmt::Var(Var { name, initializer: None }))
            }
        } else {
            (Err(expected_error(t, p + 1, Expected::VariableName)), p + 1)
        }
    } else if check(t, p, TokenType::Print) {
        let (r, q) = parse_expression(t, p + 1);
        match r {
            Ok(e) => expect_semicolon(t, q, Expected::SemicolonAfterValue, Stmt::Print(Print { expression: Box::new(e) })),
            Err(err) => (Err(err), q),
        }
    } else {
        let (r, q) = parse_expression(t, p);
        match r {
            Ok(e) => expect_semicolon(
                t,
                q,
                Expected::SemicolonAfterExpression,
                Stmt::Expression(Expression { expression: Box::new(e) }),
            ),
            Err(err) => (Err(err), q),
        }
    }
}

/// The statements from position `p` to the end of the stream; the first
/// error ends the parse.
pub open spec fn parse_program(t: Seq<Token>, p: int) -> Result<Seq<Stmt>, ParseError>
    decreases t.len() - p,
{
    if at_end(t, p) {
        Ok(Seq::empty())
    } else {
        let (r, q) = parse_declaration(t, p);
        match r {
            Err(e) => Err(e),
            Ok(st) => if p < q <= t.len() {
                match parse_program(t, q) {
                    Ok(rest) => Ok(seq![st] + rest),
                    Err(e) => Err(e),
                }
            } else {
                Ok(seq![st])
            },
        }
    }
}

/// A token sequence the parser accepts: it ends with the end-of-stream
/// token, and every `NUMBER` and `STRING` token carries its literal.
pub open spec fn tokens_ok(t: Seq<Token>) -> bool {
    &&& t.len() > 0
    &&& t.last().token_type == TokenType::EOF
    &&& forall|i: int|
        0 <= i < t.len() && (#[trigger] t[i].token_type == TokenType::Number || t[i].token_type
            == TokenType::String) ==> t[i].literal is Some
}

/// A `NUMBER` or `STRING` token carries a literal.
pub open spec fn literal_present(t: TokV) -> bool {
    (t.kind == TokenType::Number || t.kind == TokenType::String) ==> t.literal is Some
}

proof fn lemma_lookup_kind(table: Seq<(Seq<char>, TokenType)>, w: Seq<char>)
    ensures
        lookup_in(table, w) is Some ==> exists|i: int| 0 <= i < table.len() && table[i].1 == lookup_in(table, w)->0,
    decreases table.len(),
{
    if table.len() > 0 && table[0].0 != w {
        lemma_lookup_kind(table.drop_first(), w);
        if lookup_in(table, w) is Some {
            let i = choose|i: int| 0 <= i < table.drop_first().len() && table.drop_first()[i].1 == lookup_in(table, w)->0;
            assert(table[i + 1].1 == lookup_in(table, w)->0);
        }
    }
}

/// No reserved word scans as a `NUMBER` or `STRING` token.
proof fn lemma_keyword_kinds(w: Seq<char>)
    ensures
        keyword_of(w) != Some(TokenType::Number),
        keyword_of(w) != Some(TokenType::String),
{
    lemma_lookup_kind(keywords(), w);
    assert forall|i: int| 0 <= i < keywords().len() implies keywords()[i].1 != TokenType::Number && keywords()[i].1
        != TokenType::String by {}
}

proof fn lemma_scan_from_shape(s: Seq<char>, i: int)
    requires
        0 <= i,
    ensures
        scan_from(s, i).0.len() > 0,
        scan_from(s, i).0.last() == eof_token(s),
        forall|k: int| 0 <= k < scan_from(s, i).0.len() ==> literal_present(#[trigger] scan_from(s, i).0[k]),
    decreases s.len() - i,
{
    if i < s.len() {
        lemma_scan_one_advances(s, i);
        let (lx, e) = scan_one(s, i);
        lemma_scan_from_shape(s, e);
        let head = emitted_tokens(s, i, lx, e);
        if is_alpha(s[i]) {
            lemma_keyword_kinds(s.subrange(i, ident_end(s, i + 1)));
        }
        assert forall|k: int| 0 <= k < head.len() implies literal_present(#[trigger] head[k]) by {}
        let all = head + scan_from(s, e).0;
        assert forall|k: int| 0 <= k < all.len() implies literal_present(#[trigger] all[k]) by {
            if k >= head.len() {
                assert(all[k] == scan_from(s, e).0[k - head.len()]);
            }
        }
    }
}

/// Every token sequence the scanner produces is one the parser accepts.
pub proof fn lemma_scanned_tokens_ok(s: Seq<char>, v: Seq<Token>)
    requires
        tokens_view(v) == scanned(s),
    ensures
        tokens_ok(v),
{
    lemma_scan_from_shape(s, 0);
    assert(v.len() == tokens_view(v).len());
    assert(tokens_view(v)[v.len() - 1] == v.last()@);
    assert forall|i: int|
        0 <= i < v.len() && (#[trigger] v[i].token_type == TokenType::Number || v[i].token_type
            == TokenType::String) implies v[i].literal is Some by {
        assert(tokens_view(v)[i] == v[i]@);
        assert(literal_present(scan_from(s, 0).0[i]));
    }
}

/// The state of a parser: its tokens and its cursor.
pub struct ParserV {
    pub tokens: Seq<Token>,
    pub current: int,
}

pub struct Parser {
    tokens: Vec<Token>,
    current: usize,
}

impl View for Parser {
    type V = ParserV;

    closed spec fn view(&self) -> ParserV {
        ParserV { tokens: self.tokens@, current: self.current as int }
    }
}

impl Parser {
    /// The cursor stands on a token.
    pub closed spec fn wf(&self) -> bool {
        &&& tokens_ok(self.tokens@)
        &&& self.current < self.tokens@.len()
    }

    pub fn new(tokens: Vec<Token>) -> (r: Parser)
        requires
            tokens_ok(tokens@),
        ensures
            r.wf(),
            r@ == (ParserV { tokens: tokens@, current: 0 }),
    {
        Parser { tokens, current: 0 }
    }

    /// Parses every statement up to the end of the stream.
    pub fn parse(&mut self) -> (r: Result<Vec<Stmt>, ParseError>)
        requires
            old(self).wf(),
        ensures
            final(self).wf(),
            final(self)@.tokens == old(self)@.tokens,
            match r {
                Ok(v) => parse_program(old(self)@.tokens, old(self)@.current) == Ok::<Seq<Stmt>, ParseError>(v@),
                Err(e) => parse_program(old(self)@.tokens, old(self)@.current) == Err::<Seq<Stmt>, ParseError>(e),
            },
    {
        let ghost t = self.tokens@;
        let ghost p = self.current as int;
        let mut stmts: Vec<Stmt> = Vec::new();
        while !self.is_at_end()
            invariant
                self.wf(),
                self.tokens@ == t,
                t == old(self).tokens@,
                p == old(self).current,
                match parse_program(t, p) {
                    Ok(all) => parse_program(t, self.current as int) is Ok ==> all == stmts@ + parse_program(t, self.current as int)->Ok_0,
                    Err(e) => true,
                },
                parse_program(t, p) is Err <==> parse_program(t, self.current as int) is Err,
                parse_program(t, p) is Err ==> parse_program(t, p) == parse_program(t, self.current as int),
            decreases t.len() - self.current,
        {
            let ghost c = self.current as int;
            match self.declaration() {
                Ok(st) => {
                    proof {
                        let q = self.current as int;
                        assert(parse_declaration(t, c).1 == q);
                        if parse_program(t, q) is Ok {
                            assert(parse_program(t, c) == Ok::<Seq<Stmt>, ParseError>(seq![st] + parse_program(t, q)->Ok_0));
                            assert(stmts@.push(st) + parse_program(t, q)->Ok_0 =~= stmts@ + (seq![st] + parse_program(t, q)->Ok_0));
                        }
                    }
                    stmts.push(st);
                },
                Err(e) => {
                    assert(parse_program(t, c) == Err::<Seq<Stmt>, ParseError>(e));
                    return Err(e);
                },
            }
        }
        assert(stmts@ + Seq::<Stmt>::empty() =~= stmts@);
        Ok(stmts)
    }

    fn declaration(&mut self) -> (r: Result<Stmt, ParseError>)
        requires
            old(self).wf(),
            !at_end(old(self).tokens@, old(self).current as int),
        ensures
            final(self).wf(),
            final(self).tokens@ == old(self).tokens@,
            r == parse_declaration(old(self).tokens@, old(self).current as int).0,
            final(self).current == parse_declaration(old(self).tokens@, old(self).current as int).1,
            r is Ok ==> old(self).current < final(self).current,
    {
        if self.check(&TokenType::Var) {
            self.advance();
            return self.var_declaration();
        }
        self.statement()
    }

    fn var_declaration(&mut self) -> (r: Result<Stmt, ParseError>)
        requires
            old(self).wf(),
            old(self).current >= 1,
            check(old(self).tokens@, old(self).current - 1, TokenType::Var),
        ensures
            final(self).wf(),
            final(self).tokens@ == old(self).tokens@,
            r == parse_declaration(old(self).tokens@, old(self).current - 1).0,
            final(self).current == parse_declaration(old(self).tokens@, old(self).current - 1).1,
            r is Ok ==> old(self).current <= final(self).current,
    {
        let name = match self.consume(TokenType::Identifier, Expected::VariableName) {
            Ok(t) => t,
            Err(e) => {
                return Err(e);
            },
        };
        let mut initializer: Option<Box<Expr>> = None;
        if self.check(&TokenType::Equal) {
            self.advance();
            initializer = match self.expression() {
                Ok(e) => Some(Box::new(e)),
                Err(e) => {
                    return Err(e);
                },
            };
        }
        match self.consume(TokenType::Semicolon, Expected::SemicolonAfterVariable) {
            Ok(_) => Ok(Stmt::Var(Var { name, initializer })),
            Err(e) => Err(e),
        }
    }

    fn statement(&mut self) -> (r: Result<Stmt, ParseError>)
        requires
            old(self).wf(),
            !check(old(self).tokens@, old(self).current as int, TokenType::Var),
        ensures
            final(self).wf(),
            final(self).tokens@ == old(self).tokens@,
            r == parse_declaration(old(self).tokens@, old(self).current as int).0,
            final(self).current == parse_declaration(old(self).tokens@, old(self).current as int).1,
            r is Ok ==> old(self).current < final(self).current,
    {
        if self.check(&TokenType::Print) {
            self.advance();
            return self.print_statement();
        }
        self.expression_statement()
    }

    fn expression_statement(&mut self) -> (r: Result<Stmt, ParseError>)
        requires
            old(self).wf(),
            !check(old(self).tokens@, old(self).current as int, TokenType::Var),
            !check(old(self).tokens@, old(self).current as int, TokenType::Print),
        ensures
            final(self).wf(),
            final(self).tokens@ == old(self).tokens@,
            r == parse_declaration(old(self).tokens@, old(self).current as int).0,
            final(self).current == parse_declaration(old(self).tokens@, old(self).current as int).1,
            r is Ok ==> old(self).current < final(self).current,
    {
        let expr = match self.expression() {
            Ok(e) => e,
            Err(e) => {
                return Err(e);
            },
        };
        match self.consume(TokenType::Semicolon, Expected::SemicolonAfterExpression) {
            Ok(_) => Ok(Stmt::Expression(Expression { expression: Box::new(expr) })),
            Err(e) => Err(e),
        }
    }

    fn print_statement(&mut self) -> (r: Result<Stmt, ParseError>)
        requires
            old(self).wf(),
            old(self).current >= 1,
            check(old(self).tokens@, old(self).current - 1, TokenType::Print),
        ensures
            final(self).wf(),
            final(self).tokens@ == old(self).tokens@,
            r == parse_declaration(old(self).tokens@, old(self).current - 1).0,
            final(self).current == parse_declaration(old(self).tokens@, old(self).current - 1).1,
            r is Ok ==> old(self).current <= final(self).current,
    {
        let value = match self.expression() {
            Ok(e) => e,
            Err(e) => {
                return Err(e);
            },
        };
        match self.consume(TokenType::Semicolon, Expected::SemicolonAfterValue) {
            Ok(_) => Ok(Stmt::Print(Print { expression: Box::new(value) })),
            Err(e) => Err(e),
        }
    }

    /// Parses one expression from the cursor on.
    pub fn expression(&mut self) -> (r: Result<Expr, ParseError>)
        requires
            old(self).wf(),
        ensures
            final(self).wf(),
            final(self)@.tokens == old(self)@.tokens,
            old(self)@.current <= final(self)@.current,
            r == parse_expression(old(self)@.tokens, old(self)@.current).0,
            final(self)@.current == parse_expression(old(self)@.tokens, old(self)@.current).1,
        decreases old(self)@.tokens.len() - old(self)@.current, 7nat,
    {
        self.assignment()
    }

    fn assignment(&mut self) -> (r: Result<Expr, ParseError>)
        requires
            old(self).wf(),
        ensures
            final(self).wf(),
            final(self).tokens@ == old(self).tokens@,
            old(self).current <= final(self).current,
            r == parse_level(old(self).tokens@, old(self).current as int, 6).0,
            final(self).current == parse_level(old(self).tokens@, old(self).current as int, 6).1,
        decreases old(self)@.tokens.len() - old(self)@.current, 6nat,
    {
        let expr = match self.equality() {
            Ok(e) => e,
            Err(e) => {
                return Err(e);
            },
        };
        if self.check(&TokenType::Equal) {
            let equals = self.advance();
            let value = match self.assignment() {
                Ok(v) => v,
                Err(e) => {
                    return Err(e);
                },
            };
            return match expr {
                Expr::Variable(var) => Ok(Expr::Assign(Assign { name: var.name, value: Box::new(value) })),
                _ => Err(ParseError::InvalidAssignmentTarget {
                    line: equals.line,
                    found: if equals.token_type == TokenType::EOF {
                        None
                    } else {
                        Some(equals.lexeme.clone())
                    },
                }),
            };
        }
        Ok(expr)
    }

    fn equality(&mut self) -> (r: Result<Expr, ParseError>)
        requires
            old(self).wf(),
        ensures
            final(self).wf(),
            final(self).tokens@ == old(self).tokens@,
            old(self).current <= final(self).current,
            r == parse_level(old(self).tokens@, old(self).current as int, 5).0,
            final(self).current == parse_level(old(self).tokens@, old(self).current as int, 5).1,
        decreases old(self)@.tokens.len() - old(self)@.current, 5nat,
    {
        let ghost t = self.tokens@;
        let ghost p = self.current as int;
        let mut expr = match self.comparison() {
            Ok(e) => e,
            Err(e) => {
                return Err(e);
            },
        };
        let ghost q0 = self.current as int;
        let ghost e0 = expr;
        let ops = [TokenType::EqualEqual, TokenType::BangEqual];
        assert(ops@ =~= level_ops(5));
        loop
            invariant
                self.wf(),
                self.tokens@ == t,
                t == old(self).tokens@,
                p == old(self).current,
                ops@ == level_ops(5),
                p <= q0 <= self.current,
                parse_level(t, p, 5) == level_tail(t, q0, 5, e0),
                level_tail(t, q0, 5, e0) == level_tail(t, self.current as int, 5, expr),
            ensures
                self.wf(),
                self.tokens@ == t,
                p <= self.current,
                parse_level(t, p, 5) == (Ok::<Expr, ParseError>(expr), self.current as int),
            decreases t.len() - self.current,
        {
            if !self.compare(&ops) {
                break;
            }
            let operator = self.previous().clone();
            let right = match self.comparison() {
                Ok(e) => e,
                Err(e) => {
                    return Err(e);
                },
            };
            expr = Expr::Binary(Binary { left: Box::new(expr), operator, right: Box::new(right) });
        }
        Ok(expr)
    }

    fn comparison(&mut self) -> (r: Result<Expr, ParseError>)
        requires
            old(self).wf(),
        ensures
            final(self).wf(),
            final(self).tokens@ == old(self).tokens@,
            old(self).current <= final(self).current,
            r == parse_level(old(self).tokens@, old(self).current as int, 4).0,
            final(self).current == parse_level(old(self).tokens@, old(self).current as int, 4).1,
        decreases old(self)@.tokens.len() - old(self)@.current, 4nat,
    {
        let ghost t = self.tokens@;
        let ghost p = self.current as int;
        let mut expr = match self.term() {
            Ok(e) => e,
            Err(e) => {
                return Err(e);
            },
        };
        let ghost q0 = self.current as int;
        let ghost e0 = expr;
        let ops = [TokenType::Greater, TokenType::GreaterEqual, TokenType::Less, TokenType::LessEqual];
        assert(ops@ =~= level_ops(4));
        loop
            invariant
                self.wf(),
                self.tokens@ == t,
                t == old(self).tokens@,
                p == old(self).current,
                ops@ == level_ops(4),
                p <= q0 <= self.current,
                parse_level(t, p, 4) == level_tail(t, q0, 4, e0),
                level_tail(t, q0, 4, e0) == level_tail(t, self.current as int, 4, expr),
            ensures
                self.wf(),
                self.tokens@ == t,
                p <= self.current,
                parse_level(t, p, 4) == (Ok::<Expr, ParseError>(expr), self.current as int),
            decreases t.len() - self.current,
        {
            if !self.compare(&ops) {
                break;
            }
            let operator = self.previous().clone();
            let right = match self.term() {
                Ok(e) => e,
                Err(e) => {
                    return Err(e);
                },
            };
            expr = Expr::Binary(Binary { left: Box::new(expr), operator, right: Box::new(right) });
        }
        Ok(expr)
    }

    fn term(&mut self) -> (r: Result<Expr, ParseError>)
        requires
            old(self).wf(),
        ensures
            final(self).wf(),
            final(self).tokens@ == old(self).tokens@,
            old(self).current <= final(self).current,
            r == parse_level(old(self).tokens@, old(self).current as int, 3).0,
            final(self).current == parse_level(old(self).tokens@, old(self).current as int, 3).1,
        decreases old(self)@.tokens.len() - old(self)@.current, 3nat,
    {
        let ghost t = self.tokens@;
        let ghost p = self.current as int;
        let mut expr = match self.factor() {
            Ok(e) => e,
            Err(e) => {
                return Err(e);
            },
        };
        let ghost q0 = self.current as int;
        let ghost e0 = expr;
        let ops = [TokenType::Minus, TokenType::Plus];
        assert(ops@ =~= level_ops(3));
        loop
            invariant
                self.wf(),
                self.tokens@ == t,
                t == old(self).tokens@,
                p == old(self).current,
                ops@ == level_ops(3),
                p <= q0 <= self.current,
                parse_level(t, p, 3) == level_tail(t, q0, 3, e0),
                level_tail(t, q0, 3, e0) == level_tail(t, self.current as int, 3, expr),
            ensures
                self.wf(),
                self.tokens@ == t,
                p <= self.current,
                parse_level(t, p, 3) == (Ok::<Expr, ParseError>(expr), self.current as int),
            decreases t.len() - self.current,
        {
            if !self.compare(&ops) {
                break;
            }
            let operator = self.previous().clone();
            let right = match self.factor() {
                Ok(e) => e,
                Err(e) => {
                    return Err(e);
                },
            };
            expr = Expr::Binary(Binary { left: Box::new(expr), operator, right: Box::new(right) });
        }
        Ok(expr)
    }

    fn factor(&mut self) -> (r: Result<Expr, ParseError>)
        requires
            old(self).wf(),
        ensures
            final(self).wf(),
            final(self).tokens@ == old(self).tokens@,
            old(self).current <= final(self).current,
            r == parse_level(old(self).tokens@, old(self).current as int, 2).0,
            final(self).current == parse_level(old(self).tokens@, old(self).current as int, 2).1,
        decreases old(self)@.tokens.len() - old(self)@.current, 2nat,
    {
        let ghost t = self.tokens@;
        let ghost p = self.current as int;
        let mut expr = match self.unary() {
            Ok(e) => e,
            Err(e) => {
                return Err(e);
            },
        };
        let ghost q0 = self.current as int;
        let ghost e0 = expr;
        let ops = [TokenType::Slash, TokenType::Star];
        assert(ops@ =~= level_ops(2));
        loop
            invariant
                self.wf(),
                self.tokens@ == t,
                t == old(self).tokens@,
                p == old(self).current,
                ops@ == level_ops(2),
                p <= q0 <= self.current,
                parse_level(t, p, 2) == level_tail(t, q0, 2, e0),
                level_tail(t, q0, 2, e0) == level_tail(t, self.current as int, 2, expr),
            ensures
                self.wf(),
                self.tokens@ == t,
                p <= self.current,
                parse_level(t, p, 2) == (Ok::<Expr, ParseError>(expr), self.current as int),
            decreases t.len() - self.current,
        {
            if !self.compare(&ops) {
                break;
            }
            let operator = self.previous().clone();
            let right = match self.unary() {
                Ok(e) => e,
                Err(e) => {
                    return Err(e);
                },
            };
            expr = Expr::Binary(Binary { left: Box::new(expr), operator, right: Box::new(right) });
        }
        Ok(expr)
    }

    fn unary(&mut self) -> (r: Result<Expr, ParseError>)
        requires
            old(self).wf(),
        ensures
            final(self).wf(),
            final(self).tokens@ == old(self).tokens@,
            old(self).current <= final(self).current,
            r == parse_level(old(self).tokens@, old(self).current as int, 1).0,
            final(self).current == parse_level(old(self).tokens@, old(self).current as int, 1).1,
        decreases old(self)@.tokens.len() - old(self)@.current, 1nat,
    {
        let ops = [TokenType::Bang, TokenType::Minus];
        assert(ops@ =~= unary_ops());
        if self.compare(&ops) {
            let operator = self.previous().clone();
            let right = match self.unary() {
                Ok(e) => e,
                Err(e) => {
                    return Err(e);
                },
            };
            return Ok(Expr::Unary(Unary { operator, right: Box::new(right) }));
        }
        self.primary()
    }

    fn primary(&mut self) -> (r: Result<Expr, ParseError>)
        requires
            old(self).wf(),
        ensures
            final(self).wf(),
            final(self).tokens@ == old(self).tokens@,
            old(self).current <= final(self).current,
            r == parse_level(old(self).tokens@, old(self).current as int, 0).0,
            final(self).current == parse_level(old(self).tokens@, old(self).current as int, 0).1,
        decreases old(self)@.tokens.len() - old(self)@.current, 0nat,
    {
        let ghost t = self.tokens@;
        let ghost p = self.current as int;
        if self.check(&TokenType::False) {
            self.advance();
            return Ok(Expr::Literal(Literal { value: LiteralValue::Bool(false) }));
        }
        if self.check(&TokenType::True) {
            self.advance();
            return Ok(Expr::Literal(Literal { value: LiteralValue::Bool(true) }));
        }
        if self.check(&TokenType::Nil) {
            self.advance();
            return Ok(Expr::Literal(Literal { value: LiteralValue::Nil }));
        }
        if self.check(&TokenType::Number) || self.check(&TokenType::String) {
            let tok = self.advance();
            assert(t[p].literal is Some);
            return match tok.literal {
                Some(v) => Ok(Expr::Literal(Literal { value: v })),
                None => Err(ParseError::ExpectedExpression { line: 0, found: None }),
            };
        }
        if self.check(&TokenType::LeftParan) {
            self.advance();
            let expr = match self.expression() {
                Ok(e) => e,
                Err(e) => {
                    return Err(e);
                },
            };
            return match self.consume(TokenType::RightParan, Expected::ClosingParen) {
                Ok(_) => Ok(Expr::Grouping(Grouping { expression: Box::new(expr) })),
                Err(e) => Err(e),
            };
        }
        if self.check(&TokenType::Identifier) {
            let name = self.advance();
            return Ok(Expr::Variable(Variable { name }));
        }
        Err(self.expression_error())
    }

    /// Takes the token at the cursor if it has kind `token_type`.
    fn consume(&mut self, token_type: TokenType, what: Expected) -> (r: Result<Token, ParseError>)
        requires
            old(self).wf(),
        ensures
            final(self).wf(),
            final(self).tokens@ == old(self).tokens@,
            check(old(self).tokens@, old(self).current as int, token_type) ==> r == Ok::<Token, ParseError>(
                old(self).tokens@[old(self).current as int],
            ) && final(self).current == old(self).current + 1,
            !check(old(self).tokens@, old(self).current as int, token_type) ==> r == Err::<Token, ParseError>(
                expected_error(old(self).tokens@, old(self).current as int, what),
            ) && final(self).current == old(self).current,
    {
        if self.check(&token_type) {
            return Ok(self.advance());
        }
        Err(self.error(what))
    }

    /// The error for a missing token of the kind `what` describes, at the cursor.
    fn error(&self, what: Expected) -> (r: ParseError)
        requires
            self.wf(),
        ensures
            r == expected_error(self.tokens@, self.current as int, what),
    {
        let token = self.peek();
        let found = if token.token_type == TokenType::EOF {
            None
        } else {
            Some(token.lexeme.clone())
        };
        ParseError::ExpectedToken { line: token.line, found, expected: what }
    }

    /// The error for a missing expression, at the cursor.
    fn expression_error(&self) -> (r: ParseError)
        requires
            self.wf(),
        ensures
            r == expression_error(self.tokens@, self.current as int),
    {
        let token = self.peek();
        let found = if token.token_type == TokenType::EOF {
            None
        } else {
            Some(token.lexeme.clone())
        };
        ParseError::ExpectedExpression { line: token.line, found }
    }

    fn peek(&self) -> (r: &Token)
        requires
            self.wf(),
        ensures
            *r == self.tokens@[self.current as int],
    {
        &self.tokens[self.current]
    }

    /// Takes the token at the cursor if its kind is one of `types`.
    fn compare(&mut self, types: &[TokenType]) -> (r: bool)
        requires
            old(self).wf(),
        ensures
            final(self).wf(),
            final(self).tokens@ == old(self).tokens@,
            r == (!at_end(old(self).tokens@, old(self).current as int) && types@.contains(
                old(self).tokens@[old(self).current as int].token_type,
            )),
            final(self).current == old(self).current + if r {
                1int
            } else {
                0int
            },
    {
        let mut i: usize = 0;
        while i < types.len()
            invariant
                *self == *old(self),
                self.wf(),
                i <= types@.len(),
                forall|j: int|
                    0 <= j < i ==> !check(self.tokens@, self.current as int, #[trigger] types@[j]),
            decreases types@.len() - i,
        {
            if self.check(&types[i]) {
                self.advance();
                return true;
            }
            i = i + 1;
        }
        assert(!(!at_end(self.tokens@, self.current as int) && types@.contains(
            self.tokens@[self.current as int].token_type,
        ))) by {
            if !at_end(self.tokens@, self.current as int) && types@.contains(
                self.tokens@[self.current as int].token_type,
            ) {
                let j = choose|j: int|
                    0 <= j < types@.len() && types@[j] == self.tokens@[self.current as int].token_type;
                assert(check(self.tokens@, self.current as int, types@[j]));
            }
        }
        false
    }

    fn check(&self, token_type: &TokenType) -> (r: bool)
        requires
            self.wf(),
        ensures
            r == check(self.tokens@, self.current as int, *token_type),
    {
        if self.is_at_end() {
            false
        } else {
            self.peek().token_type == *token_type
        }
    }

    fn is_at_end(&self) -> (r: bool)
        requires
            self.wf(),
        ensures
            r == at_end(self.tokens@, self.current as int),
    {
        self.peek().token_type == TokenType::EOF
    }

    fn previous(&self) -> (r: &Token)
        requires
            self.wf(),
            self.current >= 1,
        ensures
            *r == self.tokens@[self.current - 1],
    {
        &self.tokens[self.current - 1]
    }

    /// Moves past the token at the cursor, unless it is the end of the
    /// stream, and hands that token back.
    fn advance(&mut self) -> (r: Token)
        requires
            old(self).wf(),
        ensures
            final(self).wf(),
            final(self).tokens@ == old(self).tokens@,
            r == old(self).tokens@[old(self).current as int],
            final(self).current == old(self).current + if at_end(old(self).tokens@, old(self).current as int) {
                0int
            } else {
                1int
            },
    {
        let r = self.peek().clone();
        if !self.is_at_end() {
            let n = self.tokens.len();
            assert(self.current + 1 < n);
            self.current = self.current + 1;
        }
        r
    }
}

} // verus!
