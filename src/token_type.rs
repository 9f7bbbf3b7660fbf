//! Token kinds and the reserved-word table.
use vstd::prelude::*;
use vstd::string::*;
use crate::number::{NumV, Number};

verus! {

/// The closed set of token kinds.
#[derive(Clone, Copy, Debug, PartialEq, Eq, Structural)]
pub enum TokenType {
    LeftParan,
    RightParan,
    LeftBrace,
    RightBrace,
    Plus,
    Minus,
    Star,
    Slash,
    Comma,
    Dot,
    Semicolon,
    Equal,
    EqualEqual,
    Bang,
    BangEqual,
    Less,
    LessEqual,
    Greater,
    GreaterEqual,
    String,
    Number,
    Identifier,
    And,
    Class,
    Else,
    False,
    For,
    Fun,
    If,
    Nil,
    Or,
    Print,
    Return,
    Super,
    This,
    True,
    Var,
    While,
    EOF,
}

/// The name under which a token kind is listed.
pub open spec fn kind_name(t: TokenType) -> Seq<char> {
    match t {
        TokenType::LeftParan => "LEFT_PAREN"@,
        TokenType::RightParan => "RIGHT_PAREN"@,
        TokenType::LeftBrace => "LEFT_BRACE"@,
        TokenType::RightBrace => "RIGHT_BRACE"@,
        TokenType::Plus => "PLUS"@,
        TokenType::Minus => "MINUS"@,
        TokenType::Star => "STAR"@,
        TokenType::Slash => "SLASH"@,
        TokenType::Comma => "COMMA"@,
        TokenType::Dot => "DOT"@,
        TokenType::Semicolon => "SEMICOLON"@,
        TokenType::Equal => "EQUAL"@,
        TokenType::EqualEqual => "EQUAL_EQUAL"@,
        TokenType::Bang => "BANG"@,
        TokenType::BangEqual => "BANG_EQUAL"@,
        TokenType::Less => "LESS"@,
        TokenType::LessEqual => "LESS_EQUAL"@,
        TokenType::Greater => "GREATER"@,
        TokenType::GreaterEqual => "GREATER_EQUAL"@,
        TokenType::String => "STRING"@,
        TokenType::Number => "NUMBER"@,
        TokenType::Identifier => "IDENTIFIER"@,
        TokenType::And => "AND"@,
        TokenType::Class => "CLASS"@,
        TokenType::Else => "ELSE"@,
        TokenType::False => "FALSE"@,
        TokenType::For => "FOR"@,
        TokenType::Fun => "FUN"@,
        TokenType::If => "IF"@,
        TokenType::Nil => "NIL"@,
        TokenType::Or => "OR"@,
        TokenType::Print => "PRINT"@,
        TokenType::Return => "RETURN"@,
        TokenType::Super => "SUPER"@,
        TokenType::This => "THIS"@,
        TokenType::True => "TRUE"@,
        TokenType::Var => "VAR"@,
        TokenType::While => "WHILE"@,
        TokenType::EOF => "EOF"@,
    }
}

impl TokenType {
    /// The kind's name, as the token listing shows it (`LEFT_PAREN`, `EOF`).
    pub fn name(&self) -> (r: &'static str)
        ensures
            r@ == kind_name(*self),
    {
        match self {
            TokenType::LeftParan => "LEFT_PAREN",
            TokenType::RightParan => "RIGHT_PAREN",
            TokenType::LeftBrace => "LEFT_BRACE",
            TokenType::RightBrace => "RIGHT_BRACE",
            TokenType::Plus => "PLUS",
            TokenType::Minus => "MINUS",
            TokenType::Star => "STAR",
            TokenType::Slash => "SLASH",
            TokenType::Comma => "COMMA",
            TokenType::Dot => "DOT",
            TokenType::Semicolon => "SEMICOLON",
            TokenType::Equal => "EQUAL",
            TokenType::EqualEqual => "EQUAL_EQUAL",
            TokenType::Bang => "BANG",
            TokenType::BangEqual => "BANG_EQUAL",
            TokenType::Less => "LESS",
            TokenType::LessEqual => "LESS_EQUAL",
            TokenType::Greater => "GREATER",
            TokenType::GreaterEqual => "GREATER_EQUAL",
            TokenType::String => "STRING",
            TokenType::Number => "NUMBER",
            TokenType::Identifier => "IDENTIFIER",
            TokenType::And => "AND",
            TokenType::Class => "CLASS",
            TokenType::Else => "ELSE",
            TokenType::False => "FALSE",
            TokenType::For => "FOR",
            TokenType::Fun => "FUN",
            TokenType::If => "IF",
            TokenType::Nil => "NIL",
            TokenType::Or => "OR",
            TokenType::Print => "PRINT",
            TokenType::Return => "RETURN",
            TokenType::Super => "SUPER",
            TokenType::This => "THIS",
            TokenType::True => "TRUE",
            TokenType::Var => "VAR",
            TokenType::While => "WHILE",
            TokenType::EOF => "EOF",
        }
    }
}

/// The reserved words with their token kinds.
pub open spec fn keywords() -> Seq<(Seq<char>, TokenType)> {
    seq![
        (seq!['a', 'n', 'd'], TokenType::And),
        (seq!['c', 'l', 'a', 's', 's'], TokenType::Class),
        (seq!['e', 'l', 's', 'e'], TokenType::Else),
        (seq!['f', 'a', 'l', 's', 'e'], TokenType::False),
        (seq!['f', 'o', 'r'], TokenType::For),
        (seq!['f', 'u', 'n'], TokenType::Fun),
        (seq!['i', 'f'], TokenType::If),
        (seq!['n', 'i', 'l'], TokenType::Nil),
        (seq!['o', 'r'], TokenType::Or),
        (seq!['p', 'r', 'i', 'n', 't'], TokenType::Print),
        (seq!['r', 'e', 't', 'u', 'r', 'n'], TokenType::Return),
        (seq!['s', 'u', 'p', 'e', 'r'], TokenType::Super),
        (seq!['t', 'h', 'i', 's'], TokenType::This),
        (seq!['t', 'r', 'u', 'e'], TokenType::True),
        (seq!['v', 'a', 'r'], TokenType::Var),
        (seq!['w', 'h', 'i', 'l', 'e'], TokenType::While),
    ]
}

/// The kind of the first entry of `table` whose word is `s`.
pub open spec fn lookup_in(table: Seq<(Seq<char>, TokenType)>, s: Seq<char>) -> Option<TokenType>
    decreases table.len(),
{
    if table.len() == 0 {
        None
    } else if table[0].0 == s {
        Some(table[0].1)
    } else {
        lookup_in(table.drop_first(), s)
    }
}

/// The reserved word spelled by `s`, if any.
pub open spec fn keyword_of(s: Seq<char>) -> Option<TokenType> {
    lookup_in(keywords(), s)
}

/// A table of words and kinds seen as values.
pub open spec fn table_view(t: Seq<(String, TokenType)>) -> Seq<(Seq<char>, TokenType)> {
    t.map_values(|p: (String, TokenType)| (p.0@, p.1))
}

pub struct KeyWord {}

impl KeyWord {
    /// The reserved-word table.
    pub fn make_keywords() -> (r: Vec<(String, TokenType)>)
        ensures
            table_view(r@) == keywords(),
    {
        let mut table: Vec<(String, TokenType)> = Vec::new();
        table.push((string_of_chars(&['a', 'n', 'd']), TokenType::And));
        table.push((string_of_chars(&['c', 'l', 'a', 's', 's']), TokenType::Class));
        table.push((string_of_chars(&['e', 'l', 's', 'e']), TokenType::Else));
        table.push((string_of_chars(&['f', 'a', 'l', 's', 'e']), TokenType::False));
        table.push((string_of_chars(&['f', 'o', 'r']), TokenType::For));
        table.push((string_of_chars(&['f', 'u', 'n']), TokenType::Fun));
        table.push((string_of_chars(&['i', 'f']), TokenType::If));
        table.push((string_of_chars(&['n', 'i', 'l']), TokenType::Nil));
        table.push((string_of_chars(&['o', 'r']), TokenType::Or));
        table.push((string_of_chars(&['p', 'r', 'i', 'n', 't']), TokenType::Print));
        table.push((string_of_chars(&['r', 'e', 't', 'u', 'r', 'n']), TokenType::Return));
        table.push((string_of_chars(&['s', 'u', 'p', 'e', 'r']), TokenType::Super));
        table.push((string_of_chars(&['t', 'h', 'i', 's']), TokenType::This));
        table.push((string_of_chars(&['t', 'r', 'u', 'e']), TokenType::True));
        table.push((string_of_chars(&['v', 'a', 'r']), TokenType::Var));
        table.push((string_of_chars(&['w', 'h', 'i', 'l', 'e']), TokenType::While));
        assert(table_view(table@) =~= keywords());
        table
    }

    /// Looks `word` up in `table`.
    pub fn lookup(table: &Vec<(String, TokenType)>, word: &[char]) -> (r: Option<TokenType>)
        ensures
            r == lookup_in(table_view(table@), word@),
    {
        let mut i: usize = 0;
        assert(table_view(table@).subrange(0, table@.len() as int) =~= table_view(table@));
        while i < table.len()
            invariant
                i <= table@.len(),
                lookup_in(table_view(table@), word@) == lookup_in(
                    table_view(table@).subrange(i as int, table@.len() as int),
                    word@,
                ),
            decreases table@.len() - i,
        {
            let ghost rest = table_view(table@).subrange(i as int, table@.len() as int);
            if str_eq_chars(table[i].0.as_str(), word) {
                return Some(table[i].1);
            }
            assert(rest.drop_first() =~= table_view(table@).subrange(i + 1, table@.len() as int));
            i = i + 1;
        }
        None
    }
}

/// Whether `s` spells exactly the characters `w`.
pub fn str_eq_chars(s: &str, w: &[char]) -> (r: bool)
    ensures
        r == (s@ == w@),
{
    let n = s.unicode_len();
    if n != w.len() {
        return false;
    }
    let mut i: usize = 0;
    while i < n
        invariant
            n == s@.len(),
            n == w@.len(),
            i <= n,
            forall|j: int| 0 <= j < i ==> s@[j] == w@[j],
        decreases n - i,
    {
        if s.get_char(i) != w[i] {
            return false;
        }
        i = i + 1;
    }
    assert(s@ =~= w@);
    true
}

/// Builds a `String` from characters, one at a time.
pub fn string_of_chars(cs: &[char]) -> (r: String)
    ensures
        r@ == cs@,
{
    let mut r = String::new();
    let mut i: usize = 0;
    while i < cs.len()
        invariant
            i <= cs@.len(),
            r@ == cs@.subrange(0, i as int),
        decreases cs@.len() - i,
    {
        r.push(cs[i]);
        i = i + 1;
    }
    assert(r@ =~= cs@);
    r
}

/// std's `String::push` appends one character.
pub assume_specification[ std::string::String::push ](s: &mut std::string::String, ch: char)
    ensures
        final(s)@ == old(s)@.push(ch),
;

} // verus!

verus! {

/// A runtime value of the language, also the literal that a `STRING` or
/// `NUMBER` token carries.
#[derive(Debug)]
pub enum Literal {
    String(String),
    Number(Number),
    Bool(bool),
    Nil,
}

/// The mathematical value of a `Literal`.
pub enum Value {
    Str(Seq<char>),
    Num(NumV),
    Bool(bool),
    Nil,
}

impl View for Literal {
    type V = Value;

    open spec fn view(&self) -> Value {
        match self {
            Literal::String(s) => Value::Str(s@),
            Literal::Number(n) => Value::Num(n@),
            Literal::Bool(b) => Value::Bool(*b),
            Literal::Nil => Value::Nil,
        }
    }
}

impl Clone for Literal {
    fn clone(&self) -> (r: Self)
        ensures
            r == *self,
    {
        match self {
            Literal::String(s) => Literal::String(s.clone()),
            Literal::Number(n) => Literal::Number(*n),
            Literal::Bool(b) => Literal::Bool(*b),
            Literal::Nil => Literal::Nil,
        }
    }
}

} // verus!
