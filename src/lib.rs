//! A tree-walking interpreter for a small dynamically typed language:
//! a scanner, a recursive-descent parser, an S-expression printer and an
//! evaluator, each specified and verified with Verus.
//!
//! Numbers are fractions in lowest terms over 64-bit integers, with the two
//! infinities and NaN; arithmetic on them never fails (see `number`).

pub mod token_type;
pub mod number;
pub mod token;
pub mod util;
pub mod scanner;
pub mod expr;
pub mod stmt;
pub mod ast_printer;
pub mod parser;
pub mod error;
pub mod environment;
pub mod interpreter;
