//! Tokens: a kind, the text it was read from, its literal and its line.
use vstd::prelude::*;
use crate::token_type::{kind_name, Literal, TokenType, Value};
use crate::util::{value_text, Utils};

verus! {

/// One token of the source.
#[derive(Debug)]
pub struct Token {
    pub token_type: TokenType,
    pub lexeme: String,
    pub literal: Option<Literal>,
    pub line: usize,
}

/// The mathematical view of a token.
pub struct TokV {
    pub kind: TokenType,
    pub lexeme: Seq<char>,
    pub literal: Option<Value>,
    pub line: int,
}

pub open spec fn literal_view(l: Option<Literal>) -> Option<Value> {
    match l {
        Some(v) => Some(v@),
        None => None,
    }
}

/// The views of a sequence of tokens.
pub open spec fn tokens_view(ts: Seq<Token>) -> Seq<TokV> {
    ts.map_values(|t: Token| t@)
}

impl View for Token {
    type V = TokV;

    open spec fn view(&self) -> TokV {
        TokV {
            kind: self.token_type,
            lexeme: self.lexeme@,
            literal: literal_view(self.literal),
            line: self.line as int,
        }
    }
}

impl Token {
    pub fn new(token_type: TokenType, lexeme: String, literal: Option<Literal>, line: usize) -> (r: Token)
        ensures
            r.token_type == token_type,
            r.lexeme == lexeme,
            r.literal == literal,
            r.line == line,
    {
        Token { token_type, lexeme, literal, line }
    }
}

/// A token as the token listing shows it: `KIND lexeme literal`, with
/// `null` for a token without a literal.
pub open spec fn token_text(t: TokV) -> Seq<char> {
    kind_name(t.kind) + seq![' '] + t.lexeme + seq![' '] + match t.literal {
        Some(v) => value_text(v),
        None => "null"@,
    }
}

impl Token {
    /// The token's line in the token listing (see `token_text`).
    pub fn describe(&self) -> (r: String)
        ensures
            r@ == token_text(self@),
    {
        let mut r = String::new();
        r.append(self.token_type.name());
        r.push(' ');
        r.append(self.lexeme.as_str());
        r.push(' ');
        match &self.literal {
            Some(v) => {
                let text = Utils::print_literal(v);
                r.append(text.as_str());
            },
            None => r.append("null"),
        }
        r
    }
}

impl Clone for Token {
    fn clone(&self) -> (r: Self)
        ensures
            r == *self,
    {
        let literal = match &self.literal {
            Some(l) => Some(l.clone()),
            None => None,
        };
        Token { token_type: self.token_type, lexeme: self.lexeme.clone(), literal, line: self.line }
    }
}

} // verus!
