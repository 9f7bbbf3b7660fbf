//! Variable bindings: a chain of scopes, innermost first.
use vstd::prelude::*;
use crate::error::RuntimeError;
use crate::token::Token;
use crate::token_type::{Literal, Value};

verus! {

/// Scopes, innermost first, each a map from names to values.
pub type Scopes = Seq<Map<Seq<char>, Value>>;

/// The value bound to `name` in the innermost scope that binds it.
pub open spec fn env_get(env: Scopes, name: Seq<char>) -> Option<Value>
    decreases env.len(),
{
    if env.len() == 0 {
        None
    } else if env[0].contains_key(name) {
        Some(env[0][name])
    } else {
        env_get(env.subrange(1, env.len() as int), name)
    }
}

/// Rebinds `name` in the innermost scope that binds it; `None` when no
/// scope does.
pub open spec fn env_assign(env: Scopes, name: Seq<char>, v: Value) -> Option<Scopes>
    decreases env.len(),
{
    if env.len() == 0 {
        None
    } else if env[0].contains_key(name) {
        Some(env.update(0, env[0].insert(name, v)))
    } else {
        match env_assign(env.subrange(1, env.len() as int), name, v) {
            Some(rest) => Some(seq![env[0]] + rest),
            None => None,
        }
    }
}

/// Binds `name` in the innermost scope, replacing any binding it had there.
pub open spec fn env_define(env: Scopes, name: Seq<char>, v: Value) -> Scopes {
    if env.len() == 0 {
        seq![Map::empty().insert(name, v)]
    } else {
        env.update(0, env[0].insert(name, v))
    }
}

/// The bindings of one scope: later entries replace earlier ones.
pub open spec fn scope_map(vars: Seq<(String, Literal)>) -> Map<Seq<char>, Value>
    decreases vars.len(),
{
    if vars.len() == 0 {
        Map::empty()
    } else {
        scope_map(vars.drop_last()).insert(vars.last().0@, vars.last().1@)
    }
}

/// A chain of scopes.
pub struct Environment {
    enclosing: Option<Box<Environment>>,
    variables: Vec<(String, Literal)>,
}

pub closed spec fn scopes_of(e: Environment) -> Scopes
    decreases e,
{
    match e.enclosing {
        Some(outer) => seq![scope_map(e.variables@)] + scopes_of(*outer),
        None => seq![scope_map(e.variables@)],
    }
}

impl View for Environment {
    type V = Scopes;

    closed spec fn view(&self) -> Scopes {
        scopes_of(*self)
    }
}

/// If no entry at or after `k` is named `name`, the bindings of `name` in
/// `vars` are those of its first `k` entries.
proof fn lemma_scope_map_prefix(vars: Seq<(String, Literal)>, k: int, name: Seq<char>)
    requires
        0 <= k <= vars.len(),
        forall|j: int| k <= j < vars.len() ==> (#[trigger] vars[j]).0@ != name,
    ensures
        scope_map(vars).contains_key(name) == scope_map(vars.subrange(0, k)).contains_key(name),
        scope_map(vars).contains_key(name) ==> scope_map(vars)[name] == scope_map(vars.subrange(0, k))[name],
    decreases vars.len(),
{
    if k == vars.len() {
        assert(vars.subrange(0, k) =~= vars);
    } else {
        assert(vars[vars.len() - 1].0@ != name);
        lemma_scope_map_prefix(vars.drop_last(), k, name);
        assert(vars.drop_last().subrange(0, k) =~= vars.subrange(0, k));
    }
}

/// Replacing the last entry named `k` sets the binding of `k`.
proof fn lemma_scope_map_update(vars: Seq<(String, Literal)>, i: int, k: String, v: Literal)
    requires
        0 <= i < vars.len(),
        vars[i].0@ == k@,
        forall|j: int| i < j < vars.len() ==> (#[trigger] vars[j]).0@ != k@,
    ensures
        scope_map(vars.update(i, (k, v))) == scope_map(vars).insert(k@, v@),
    decreases vars.len(),
{
    let u = vars.update(i, (k, v));
    if i == vars.len() - 1 {
        assert(u.drop_last() =~= vars.drop_last());
        assert(scope_map(u) =~= scope_map(vars).insert(k@, v@));
    } else {
        assert(vars[vars.len() - 1].0@ != k@);
        lemma_scope_map_update(vars.drop_last(), i, k, v);
        assert(u.drop_last() =~= vars.drop_last().update(i, (k, v)));
        assert(scope_map(u) =~= scope_map(vars).insert(k@, v@));
    }
}

proof fn lemma_scopes_nonempty(e: Environment)
    ensures
        scopes_of(e).len() >= 1,
        scopes_of(e)[0] == scope_map(e.variables@),
{
}

impl Environment {
    /// There is always at least one scope.
    pub proof fn lemma_nonempty(&self)
        ensures
            self@.len() >= 1,
    {
        lemma_scopes_nonempty(*self);
    }

    /// The outermost scope, with no bindings.
    pub fn global() -> (r: Environment)
        ensures
            r@ == seq![Map::<Seq<char>, Value>::empty()],
    {
        let r = Environment { enclosing: None, variables: Vec::new() };
        assert(scope_map(r.variables@) =~= Map::<Seq<char>, Value>::empty());
        r
    }

    /// A new empty scope inside `enclosing`.
    pub fn local(enclosing: Environment) -> (r: Environment)
        ensures
            r@ == seq![Map::<Seq<char>, Value>::empty()] + enclosing@,
    {
        let r = Environment { enclosing: Some(Box::new(enclosing)), variables: Vec::new() };
        assert(scope_map(r.variables@) =~= Map::<Seq<char>, Value>::empty());
        r
    }

    /// Leaves the innermost scope: the enclosing chain, if there is one.
    pub fn into_enclosing(self) -> (r: Option<Environment>)
        ensures
            self@.len() > 1 ==> r is Some && r->0@ == self@.subrange(1, self@.len() as int),
            self@.len() == 1 ==> r is None,
    {
        proof {
            lemma_scopes_nonempty(self);
        }
        match self.enclosing {
            Some(outer) => {
                proof {
                    lemma_scopes_nonempty(*outer);
                    assert(self@.subrange(1, self@.len() as int) =~= scopes_of(*outer));
                }
                Some(*outer)
            },
            None => None,
        }
    }

    /// Binds `name` in the innermost scope.
    pub fn define(&mut self, name: String, value: Literal)
        ensures
            final(self)@ == env_define(old(self)@, name@, value@),
    {
        proof {
            lemma_scopes_nonempty(*self);
        }
        match self.find(&name) {
            Some(i) => {
                proof {
                    lemma_scope_map_update(old(self).variables@, i as int, name, value);
                }
                self.variables[i] = (name, value);
            },
            None => {
                self.variables.push((name, value));
                assert(self.variables@.drop_last() =~= old(self).variables@);
            },
        }
        assert(self@ =~= env_define(old(self)@, name@, value@));
    }

    /// The position of the entry for `name` in the innermost scope.
    fn find(&self, name: &String) -> (r: Option<usize>)
        ensures
            r is Some <==> scope_map(self.variables@).contains_key(name@),
            r is Some ==> r->0 < self.variables@.len() && self.variables@[r->0 as int].0@ == name@
                && self.variables@[r->0 as int].1@ == scope_map(self.variables@)[name@] && forall|j: int|
                r->0 < j < self.variables@.len() ==> (#[trigger] self.variables@[j]).0@ != name@,
    {
        let ghost vars = self.variables@;
        let mut i: usize = self.variables.len();
        while i > 0
            invariant
                vars == self.variables@,
                i <= vars.len(),
                forall|j: int| i <= j < vars.len() ==> (#[trigger] vars[j]).0@ != name@,
            decreases i,
        {
            if self.variables[i - 1].0 == *name {
                proof {
                    lemma_scope_map_prefix(vars, i as int, name@);
                    assert(vars.subrange(0, i as int).drop_last() =~= vars.subrange(0, i - 1));
                    assert(vars.subrange(0, i as int).last() == vars[i - 1]);
                }
                return Some(i - 1);
            }
            i = i - 1;
        }
        proof {
            lemma_scope_map_prefix(vars, 0, name@);
            assert(vars.subrange(0, 0) =~= Seq::<(String, Literal)>::empty());
        }
        None
    }

    /// Rebinds `name` where it is bound; fails when no scope binds it.
    pub fn assign(&mut self, name: Token, value: Literal) -> (r: Result<(), RuntimeError>)
        ensures
            match env_assign(old(self)@, name.lexeme@, value@) {
                Some(env) => r is Ok && final(self)@ == env,
                None => r == Err::<(), RuntimeError>(
                    RuntimeError::UndefinedVariable { name: name.lexeme, line: name.line },
                ) && final(self)@ == old(self)@,
            },
        decreases old(self)@.len(),
    {
        proof {
            lemma_scopes_nonempty(*self);
        }
        if let Some(i) = self.find(&name.lexeme) {
            let ghost key = name.lexeme@;
            proof {
                lemma_scope_map_update(old(self).variables@, i as int, name.lexeme, value);
            }
            self.variables[i] = (name.lexeme, value);
            proof {
                assert(self@ =~= old(self)@.update(0, old(self)@[0].insert(key, value@)));
            }
            return Ok(());
        }
        match self.enclosing.take() {
            Some(outer_box) => {
                let mut outer = *outer_box;
                proof {
                    lemma_scopes_nonempty(outer);
                    assert(old(self)@.subrange(1, old(self)@.len() as int) =~= outer@);
                }
                let r = outer.assign(name, value);
                self.enclosing = Some(Box::new(outer));
                proof {
                    lemma_scopes_nonempty(outer);
                    assert(self@ =~= seq![old(self)@[0]] + outer@);
                    if r is Err {
                        assert(self@ =~= old(self)@);
                    }
                }
                r
            },
            None => {
                proof {
                    assert(old(self)@ == seq![scope_map(old(self).variables@)]);
                    assert(old(self)@.subrange(1, old(self)@.len() as int) =~= Seq::<Map<Seq<char>, Value>>::empty());
                    assert(env_assign(Seq::<Map<Seq<char>, Value>>::empty(), name.lexeme@, value@) is None);
                    assert(self@ =~= old(self)@);
                }
                Err(RuntimeError::UndefinedVariable { name: name.lexeme, line: name.line })
            },
        }
    }

    /// The value bound to `name`; fails when no scope binds it.
    pub fn get(&self, name: Token) -> (r: Result<Literal, RuntimeError>)
        ensures
            match env_get(self@, name.lexeme@) {
                Some(v) => r is Ok && r->Ok_0@ == v,
                None => r == Err::<Literal, RuntimeError>(
                    RuntimeError::UndefinedVariable { name: name.lexeme, line: name.line },
                ),
            },
        decreases self@.len(),
    {
        proof {
            lemma_scopes_nonempty(*self);
        }
        match self.find(&name.lexeme) {
            Some(i) => Ok(self.variables[i].1.clone()),
            None => match &self.enclosing {
                Some(outer) => {
                    proof {
                        lemma_scopes_nonempty(**outer);
                        assert(self@.subrange(1, self@.len() as int) =~= outer@);
                    }
                    outer.get(name)
                },
                None => {
                    assert(self@ == seq![scope_map(self.variables@)]);
                    assert(self@.subrange(1, self@.len() as int) =~= Seq::<Map<Seq<char>, Value>>::empty());
                    assert(env_get(Seq::<Map<Seq<char>, Value>>::empty(), name.lexeme@) is None);
                    Err(RuntimeError::UndefinedVariable { name: name.lexeme, line: name.line })
                },
            },
        }
    }
}

} // verus!
