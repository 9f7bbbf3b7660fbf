//! Expression trees. Each node owns its children.
use vstd::prelude::*;
use crate::token::Token;
use crate::token_type::Literal as LiteralValue;

verus! {

/// An expression of the language.
#[derive(Debug)]
pub enum Expr {
    Assign(Assign),
    Binary(Binary),
    Grouping(Grouping),
    Literal(Literal),
    Unary(Unary),
    Variable(Variable),
}

/// `name = value`.
#[derive(Debug)]
pub struct Assign {
    pub name: Token,
    pub value: Box<Expr>,
}

/// `left operator right`.
#[derive(Debug)]
pub struct Binary {
    pub left: Box<Expr>,
    pub operator: Token,
    pub right: Box<Expr>,
}

/// `( expression )`.
#[derive(Debug)]
pub struct Grouping {
    pub expression: Box<Expr>,
}

/// A constant.
#[derive(Debug)]
pub struct Literal {
    pub value: LiteralValue,
}

/// `operator right`.
#[derive(Debug)]
pub struct Unary {
    pub operator: Token,
    pub right: Box<Expr>,
}

/// A reference to a variable.
#[derive(Debug)]
pub struct Variable {
    pub name: Token,
}

impl Clone for Expr {
    fn clone(&self) -> (r: Self)
        ensures
            r == *self,
        decreases self,
    {
        match self {
            Expr::Assign(a) => Expr::Assign(Assign { name: a.name.clone(), value: Box::new((*a.value).clone()) }),
            Expr::Binary(b) => Expr::Binary(
                Binary {
                    left: Box::new((*b.left).clone()),
                    operator: b.operator.clone(),
                    right: Box::new((*b.right).clone()),
                },
            ),
            Expr::Grouping(g) => Expr::Grouping(Grouping { expression: Box::new((*g.expression).clone()) }),
            Expr::Literal(l) => Expr::Literal(Literal { value: l.value.clone() }),
            Expr::Unary(u) => Expr::Unary(Unary { operator: u.operator.clone(), right: Box::new((*u.right).clone()) }),
            Expr::Variable(v) => Expr::Variable(Variable { name: v.name.clone() }),
        }
    }
}

} // verus!
