//! Renders an expression tree as an S-expression.
use vstd::prelude::*;
use crate::expr::Expr;
use crate::util::{value_text, Utils};

verus! {

/// The S-expression of `e`: `(op left right)`, `(op right)`, `(group e)`,
/// `(= name value)`, `(name)` for a variable, and the value's text for a
/// literal.
pub open spec fn sexpr(e: Expr) -> Seq<char>
    decreases e,
{
    match e {
        Expr::Assign(a) => seq!['(', '=', ' '] + a.name.lexeme@ + seq![' '] + sexpr(*a.value) + seq![')'],
        Expr::Binary(b) => seq!['('] + b.operator.lexeme@ + seq![' '] + sexpr(*b.left) + seq![' ']
            + sexpr(*b.right) + seq![')'],
        Expr::Grouping(g) => seq!['(', 'g', 'r', 'o', 'u', 'p', ' '] + sexpr(*g.expression) + seq![')'],
        Expr::Literal(l) => value_text(l.value@),
        Expr::Unary(u) => seq!['('] + u.operator.lexeme@ + seq![' '] + sexpr(*u.right) + seq![')'],
        Expr::Variable(v) => seq!['('] + v.name.lexeme@ + seq![')'],
    }
}

pub struct AstPrinter {}

impl AstPrinter {
    /// The S-expression of `expr` (see `sexpr`).
    pub fn print(&self, expr: &Expr) -> (r: String)
        ensures
            r@ == sexpr(*expr),
        decreases expr,
    {
        match expr {
            Expr::Assign(a) => {
                let name = a.name.lexeme.clone();
                let inner = self.print(&a.value);
                proof {
                    lemma_spaced_two(name, inner);
                    reveal_strlit("=");
                }
                let out = self.parenthesize("=", &[name, inner]);
                assert(out@ =~= sexpr(*expr));
                out
            },
            Expr::Binary(b) => {
                let l = self.print(&b.left);
                let r = self.print(&b.right);
                proof {
                    lemma_spaced_two(l, r);
                }
                let out = self.parenthesize(b.operator.lexeme.as_str(), &[l, r]);
                assert(out@ =~= sexpr(*expr));
                out
            },
            Expr::Grouping(g) => {
                let parts = [self.print(&g.expression)];
                proof {
                    assert(parts@ =~= seq![parts[0]]);
                    lemma_spaced_one(parts[0]);
                    reveal_strlit("group");
                }
                let out = self.parenthesize("group", &parts);
                assert(out@ =~= sexpr(*expr));
                out
            },
            Expr::Literal(l) => Utils::print_literal(&l.value),
            Expr::Unary(u) => {
                let parts = [self.print(&u.right)];
                proof {
                    assert(parts@ =~= seq![parts[0]]);
                    lemma_spaced_one(parts[0]);
                }
                let out = self.parenthesize(u.operator.lexeme.as_str(), &parts);
                assert(out@ =~= sexpr(*expr));
                out
            },
            Expr::Variable(v) => {
                let mut out = String::new();
                out.push('(');
                out.append(v.name.lexeme.as_str());
                out.push(')');
                assert(out@ =~= sexpr(*expr));
                out
            },
        }
    }

    /// `(name part1 part2 ...)`.
    fn parenthesize(&self, name: &str, parts: &[String]) -> (r: String)
        ensures
            r@ == seq!['('] + name@ + spaced(parts@) + seq![')'],
    {
        let mut out = String::new();
        out.push('(');
        out.append(name);
        let mut i: usize = 0;
        while i < parts.len()
            invariant
                i <= parts@.len(),
                out@ == seq!['('] + name@ + spaced(parts@.subrange(0, i as int)),
            decreases parts@.len() - i,
        {
            let ghost before = out@;
            out.push(' ');
            out.append(parts[i].as_str());
            proof {
                let p = parts@.subrange(0, i + 1);
                assert(p.drop_last() =~= parts@.subrange(0, i as int));
                assert(out@ =~= before + seq![' '] + parts@[i as int]@);
            }
            i = i + 1;
        }
        assert(parts@.subrange(0, parts@.len() as int) =~= parts@);
        out.push(')');
        out
    }
}

proof fn lemma_spaced_one(a: String)
    ensures
        spaced(seq![a]) == seq![' '] + a@,
{
    assert(seq![a].drop_last() =~= Seq::<String>::empty());
    assert(seq![a].last() == a);
    assert(spaced(Seq::<String>::empty()) == Seq::<char>::empty());
    assert(Seq::<char>::empty() + seq![' '] + a@ =~= seq![' '] + a@);
}

proof fn lemma_spaced_two(a: String, b: String)
    ensures
        spaced(seq![a, b]) == seq![' '] + a@ + seq![' '] + b@,
{
    assert(seq![a, b].drop_last() =~= seq![a]);
    lemma_spaced_one(a);
}

/// Each part preceded by a space.
pub open spec fn spaced(parts: Seq<String>) -> Seq<char>
    decreases parts.len(),
{
    if parts.len() == 0 {
        Seq::empty()
    } else {
        spaced(parts.drop_last()) + seq![' '] + parts.last()@
    }
}

} // verus!
