//! Statement trees.
use vstd::prelude::*;
use crate::expr::Expr;
use crate::token::Token;

verus! {

/// A statement of the language.
#[derive(Debug)]
pub enum Stmt {
    Block(Block),
    Expression(Expression),
    Print(Print),
    Var(Var),
}

/// A sequence of statements run in a scope of its own.
#[derive(Debug)]
pub struct Block {
    pub statements: Vec<Box<Stmt>>,
}

/// An expression evaluated for its effect.
#[derive(Debug)]
pub struct Expression {
    pub expression: Box<Expr>,
}

/// An expression whose value is written as one line.
#[derive(Debug)]
pub struct Print {
    pub expression: Box<Expr>,
}

/// `var name` or `var name = initializer`.
#[derive(Debug)]
pub struct Var {
    pub name: Token,
    pub initializer: Option<Box<Expr>>,
}

} // verus!
