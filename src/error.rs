//! Runtime errors, and the texts of the diagnostics the front end reports.
use vstd::prelude::*;
use crate::number::{nat_string, nat_text};

verus! {

/// An error that stops evaluation, with the line of the token it is about.
#[derive(Debug)]
pub enum RuntimeError {
    /// The operator is not defined on the operands' types.
    InvalidOperator { operator: String, line: usize },
    /// The variable has no binding.
    UndefinedVariable { name: String, line: usize },
    /// `-` applied to something other than a number.
    NegateNonNumber { line: usize },
}

/// `[line N] `.
pub open spec fn line_tag(line: usize) -> Seq<char> {
    "[line "@ + nat_text(line as nat) + "] "@
}

/// The diagnostic for a runtime error.
pub open spec fn runtime_error_text(e: RuntimeError) -> Seq<char> {
    match e {
        RuntimeError::InvalidOperator { operator, line } => line_tag(line) + "Invalid operator '"@ + operator@
            + "'."@,
        RuntimeError::UndefinedVariable { name, line } => line_tag(line) + "Undefined variable '"@ + name@
            + "'."@,
        RuntimeError::NegateNonNumber { line } => line_tag(line) + "Operand must be a number."@,
    }
}

/// Writes `[line N] ` for `line`.
pub fn line_tag_string(line: usize) -> (r: String)
    ensures
        r@ == line_tag(line),
{
    let mut r = String::new();
    r.append("[line ");
    let n = nat_string(line as u128);
    r.append(n.as_str());
    r.append("] ");
    r
}

impl RuntimeError {
    /// The diagnostic text (see `runtime_error_text`).
    pub fn message(&self) -> (r: String)
        ensures
            r@ == runtime_error_text(*self),
    {
        match self {
            RuntimeError::InvalidOperator { operator, line } => {
                let mut r = line_tag_string(*line);
                r.append("Invalid operator '");
                r.append(operator.as_str());
                r.append("'.");
                r
            },
            RuntimeError::UndefinedVariable { name, line } => {
                let mut r = line_tag_string(*line);
                r.append("Undefined variable '");
                r.append(name.as_str());
                r.append("'.");
                r
            },
            RuntimeError::NegateNonNumber { line } => {
                let mut r = line_tag_string(*line);
                r.append("Operand must be a number.");
                r
            },
        }
    }
}

/// The texts of the scanner's diagnostics.
pub struct LoxError {}

impl LoxError {
    /// `[line N] Error: Unexpected character: c`.
    pub fn unexpected_character(line: usize, c: char) -> (r: String)
        ensures
            r@ == line_tag(line) + "Error: Unexpected character: "@ + seq![c],
    {
        let mut r = line_tag_string(line);
        r.append("Error: Unexpected character: ");
        r.push(c);
        r
    }

    /// `[line N] Error: Unterminated string.`
    pub fn unterminated_string(line: usize) -> (r: String)
        ensures
            r@ == line_tag(line) + "Error: Unterminated string."@,
    {
        let mut r = line_tag_string(line);
        r.append("Error: Unterminated string.");
        r
    }

    /// `[line N] Error: syntax error`.
    pub fn syntax_error(line: usize) -> (r: String)
        ensures
            r@ == line_tag(line) + "Error: syntax error"@,
    {
        let mut r = line_tag_string(line);
        r.append("Error: syntax error");
        r
    }
}

} // verus!
