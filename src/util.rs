//! Rendering of values and slicing of source text by character positions.
use vstd::prelude::*;
use vstd::string::*;
use crate::number::num_text;
use crate::token_type::{Literal, Value};

verus! {

/// The text of a value: numbers by `num_text`, strings as they are, and
/// `true`, `false`, `nil`.
pub open spec fn value_text(v: Value) -> Seq<char> {
    match v {
        Value::Str(s) => s,
        Value::Num(n) => num_text(n),
        Value::Bool(b) => if b {
            seq!['t', 'r', 'u', 'e']
        } else {
            seq!['f', 'a', 'l', 's', 'e']
        },
        Value::Nil => seq!['n', 'i', 'l'],
    }
}

pub struct Utils {}

impl Utils {
    /// The text of a value (see `value_text`).
    pub fn print_literal(literal: &Literal) -> (r: String)
        ensures
            r@ == value_text(literal@),
    {
        match literal {
            Literal::String(s) => s.clone(),
            Literal::Number(n) => n.render(),
            Literal::Bool(b) => {
                let mut r = String::new();
                if *b {
                    r.push('t');
                    r.push('r');
                    r.push('u');
                    r.push('e');
                } else {
                    r.push('f');
                    r.push('a');
                    r.push('l');
                    r.push('s');
                    r.push('e');
                }
                assert(r@ =~= value_text(literal@));
                r
            },
            Literal::Nil => {
                let mut r = String::new();
                r.push('n');
                r.push('i');
                r.push('l');
                assert(r@ =~= value_text(literal@));
                r
            },
        }
    }

    /// The characters of `source` from position `start_char` up to, not
    /// including, `end_char` (positions count characters, not bytes).
    pub fn get_char_range(source: &str, start_char: usize, end_char: usize) -> (r: String)
        requires
            start_char <= end_char <= source@.len(),
        ensures
            r@ == source@.subrange(start_char as int, end_char as int),
    {
        source.substring_char(start_char, end_char).to_owned()
    }
}

} // verus!
