//! The scanner: one left-to-right pass over the characters of the source,
//! producing tokens and collecting the problems it meets on the way.
use vstd::prelude::*;
use crate::number::{all_digits, is_digit, literal_value, Number};
use crate::token::{tokens_view, TokV, Token};
use crate::error::{line_tag, LoxError};
use crate::token_type::{keyword_of, keywords, table_view, KeyWord, Literal, TokenType, Value};

verus! {

/// A problem found while scanning, with the line where it was found.
#[derive(Clone, Copy, Debug, PartialEq, Eq, Structural)]
pub enum ScanError {
    UnexpectedCharacter { line: usize, c: char },
    UnterminatedString { line: usize },
}

/// The diagnostic for a scanning problem.
pub open spec fn scan_error_text(e: ScanError) -> Seq<char> {
    match e {
        ScanError::UnexpectedCharacter { line, c } => line_tag(line) + "Error: Unexpected character: "@ + seq![c],
        ScanError::UnterminatedString { line } => line_tag(line) + "Error: Unterminated string."@,
    }
}

impl ScanError {
    /// The diagnostic text (see `scan_error_text`).
    pub fn message(&self) -> (r: String)
        ensures
            r@ == scan_error_text(*self),
    {
        match self {
            ScanError::UnexpectedCharacter { line, c } => LoxError::unexpected_character(*line, *c),
            ScanError::UnterminatedString { line } => LoxError::unterminated_string(*line),
        }
    }
}

/// What the characters at one position turn out to be.
pub enum Lexeme {
    Token(TokenType, Option<Value>),
    Skip,
    Unexpected(char),
    Unterminated,
}

pub open spec fn is_alpha(c: char) -> bool {
    ('a' <= c && c <= 'z') || ('A' <= c && c <= 'Z') || c == '_'
}

pub open spec fn is_alnum(c: char) -> bool {
    is_alpha(c) || is_digit(c)
}

/// How many newlines `s` holds.
pub open spec fn newlines(s: Seq<char>) -> nat
    decreases s.len(),
{
    if s.len() == 0 {
        0
    } else {
        newlines(s.drop_last()) + if s.last() == '\n' {
            1nat
        } else {
            0nat
        }
    }
}

/// The (1-based) line of position `i`.
pub open spec fn line_at(s: Seq<char>, i: int) -> int {
    1 + newlines(s.subrange(0, i)) as int
}

/// End of the run of digits that starts at `i`.
pub open spec fn digits_end(s: Seq<char>, i: int) -> int
    decreases s.len() - i,
{
    if 0 <= i < s.len() && is_digit(s[i]) {
        digits_end(s, i + 1)
    } else {
        i
    }
}

/// End of the run of letters, digits and underscores that starts at `i`.
pub open spec fn ident_end(s: Seq<char>, i: int) -> int
    decreases s.len() - i,
{
    if 0 <= i < s.len() && is_alnum(s[i]) {
        ident_end(s, i + 1)
    } else {
        i
    }
}

/// Position of the first newline at or after `i`, or the end.
pub open spec fn comment_end(s: Seq<char>, i: int) -> int
    decreases s.len() - i,
{
    if 0 <= i < s.len() && s[i] != '\n' {
        comment_end(s, i + 1)
    } else {
        i
    }
}

/// Position of the first `"` at or after `i`, or the end.
pub open spec fn quote_end(s: Seq<char>, i: int) -> int
    decreases s.len() - i,
{
    if 0 <= i < s.len() && s[i] != '"' {
        quote_end(s, i + 1)
    } else {
        i
    }
}

/// Whether a `.` followed by a digit stands at `e`.
pub open spec fn has_fraction(s: Seq<char>, e: int) -> bool {
    e + 1 < s.len() && s[e] == '.' && is_digit(s[e + 1])
}

/// A one-character operator, or its two-character form when `=` follows.
pub open spec fn one_or_two(s: Seq<char>, i: int, two: TokenType, one: TokenType) -> (Lexeme, int) {
    if i + 1 < s.len() && s[i + 1] == '=' {
        (Lexeme::Token(two, None), i + 2)
    } else {
        (Lexeme::Token(one, None), i + 1)
    }
}

pub open spec fn number_lexeme(s: Seq<char>, i: int) -> (Lexeme, int) {
    let e = digits_end(s, i + 1);
    let end = if has_fraction(s, e) {
        digits_end(s, e + 1)
    } else {
        e
    };
    let frac = if has_fraction(s, e) {
        s.subrange(e + 1, end)
    } else {
        Seq::empty()
    };
    (Lexeme::Token(TokenType::Number, Some(Value::Num(literal_value(s.subrange(i, e), frac)))), end)
}

pub open spec fn string_lexeme(s: Seq<char>, i: int) -> (Lexeme, int) {
    let q = quote_end(s, i + 1);
    if q >= s.len() {
        (Lexeme::Unterminated, s.len() as int)
    } else {
        (Lexeme::Token(TokenType::String, Some(Value::Str(s.subrange(i + 1, q)))), q + 1)
    }
}

pub open spec fn identifier_lexeme(s: Seq<char>, i: int) -> (Lexeme, int) {
    let e = ident_end(s, i + 1);
    let kind = match keyword_of(s.subrange(i, e)) {
        Some(k) => k,
        None => TokenType::Identifier,
    };
    (Lexeme::Token(kind, None), e)
}

/// The lexeme that starts at position `i` (`i < s.len()`), and where it ends.
pub open spec fn scan_one(s: Seq<char>, i: int) -> (Lexeme, int) {
    let c = s[i];
    if c == '(' {
        (Lexeme::Token(TokenType::LeftParan, None), i + 1)
    } else if c == ')' {
        (Lexeme::Token(TokenType::RightParan, None), i + 1)
    } else if c == '{' {
        (Lexeme::Token(TokenType::LeftBrace, None), i + 1)
    } else if c == '}' {
        (Lexeme::Token(TokenType::RightBrace, None), i + 1)
    } else if c == '+' {
        (Lexeme::Token(TokenType::Plus, None), i + 1)
    } else if c == '-' {
        (Lexeme::Token(TokenType::Minus, None), i + 1)
    } else if c == '*' {
        (Lexeme::Token(TokenType::Star, None), i + 1)
    } else if c == ',' {
        (Lexeme::Token(TokenType::Comma, None), i + 1)
    } else if c == '.' {
        (Lexeme::Token(TokenType::Dot, None), i + 1)
    } else if c == ';' {
        (Lexeme::Token(TokenType::Semicolon, None), i + 1)
    } else if c == '=' {
        one_or_two(s, i, TokenType::EqualEqual, TokenType::Equal)
    } else if c == '!' {
        one_or_two(s, i, TokenType::BangEqual, TokenType::Bang)
    } else if c == '<' {
        one_or_two(s, i, TokenType::LessEqual, TokenType::Less)
    } else if c == '>' {
        one_or_two(s, i, TokenType::GreaterEqual, TokenType::Greater)
    } else if c == '/' {
        if i + 1 < s.len() && s[i + 1] == '/' {
            (Lexeme::Skip, comment_end(s, i + 2))
        } else {
            (Lexeme::Token(TokenType::Slash, None), i + 1)
        }
    } else if c == '"' {
        string_lexeme(s, i)
    } else if is_digit(c) {
        number_lexeme(s, i)
    } else if is_alpha(c) {
        identifier_lexeme(s, i)
    } else if c == '\n' || c == ' ' || c == '\r' || c == '\t' {
        (Lexeme::Skip, i + 1)
    } else {
        (Lexeme::Unexpected(c), i + 1)
    }
}

/// The token that a lexeme from `i` to `e` yields, if any.
pub open spec fn emitted_tokens(s: Seq<char>, i: int, lx: Lexeme, e: int) -> Seq<TokV> {
    match lx {
        Lexeme::Token(kind, literal) => seq![
            TokV { kind, lexeme: s.subrange(i, e), literal, line: line_at(s, i) },
        ],
        _ => Seq::empty(),
    }
}

/// The problem that a lexeme at `i` reports, if any.
pub open spec fn emitted_errors(s: Seq<char>, i: int, lx: Lexeme) -> Seq<ScanError> {
    match lx {
        Lexeme::Unexpected(c) => seq![ScanError::UnexpectedCharacter { line: line_at(s, i) as usize, c }],
        Lexeme::Unterminated => seq![ScanError::UnterminatedString { line: line_at(s, i) as usize }],
        _ => Seq::empty(),
    }
}

/// The end-of-stream token of `s`.
pub open spec fn eof_token(s: Seq<char>) -> TokV {
    TokV { kind: TokenType::EOF, lexeme: Seq::empty(), literal: None, line: line_at(s, s.len() as int) }
}

/// Tokens and problems of `s` from position `i` on, the end-of-stream token
/// included.
pub open spec fn scan_from(s: Seq<char>, i: int) -> (Seq<TokV>, Seq<ScanError>)
    decreases s.len() - i,
{
    if i < 0 || i >= s.len() {
        (seq![eof_token(s)], Seq::empty())
    } else {
        let (lx, e) = scan_one(s, i);
        if e <= i || e > s.len() {
            // never taken: every lexeme takes at least one character, within `s`
            (Seq::empty(), Seq::empty())
        } else {
            let (ts, es) = scan_from(s, e);
            (emitted_tokens(s, i, lx, e) + ts, emitted_errors(s, i, lx) + es)
        }
    }
}

/// The tokens of a whole source.
pub open spec fn scanned(s: Seq<char>) -> Seq<TokV> {
    scan_from(s, 0).0
}

/// The problems found in a whole source.
pub open spec fn scan_problems(s: Seq<char>) -> Seq<ScanError> {
    scan_from(s, 0).1
}

proof fn lemma_run_ends(s: Seq<char>, k: int)
    requires
        0 <= k <= s.len(),
    ensures
        k <= digits_end(s, k) <= s.len(),
        k <= ident_end(s, k) <= s.len(),
        k <= comment_end(s, k) <= s.len(),
        k <= quote_end(s, k) <= s.len(),
    decreases s.len() - k,
{
    if k < s.len() {
        lemma_run_ends(s, k + 1);
    }
}

/// Every lexeme takes at least one character and ends within the source.
pub proof fn lemma_scan_one_advances(s: Seq<char>, i: int)
    requires
        0 <= i < s.len(),
    ensures
        i < scan_one(s, i).1 <= s.len(),
{
    lemma_run_ends(s, i + 1);
    if i + 2 <= s.len() {
        lemma_run_ends(s, i + 2);
    }
    let e = digits_end(s, i + 1);
    if has_fraction(s, e) {
        lemma_run_ends(s, e + 1);
    }
}

/// The kind of the two-character operator that `c` followed by `=` forms.
pub open spec fn with_equal_kind(c: char) -> TokenType {
    if c == '=' {
        TokenType::EqualEqual
    } else if c == '!' {
        TokenType::BangEqual
    } else if c == '<' {
        TokenType::LessEqual
    } else {
        TokenType::GreaterEqual
    }
}

/// Wherever a lexeme starts with `==`, `!=`, `<=` or `>=`, the scanner reads
/// the two characters as exactly one token, of the two-character kind, and
/// goes on after them: never two one-character tokens.
pub proof fn lemma_two_char_operator(s: Seq<char>, i: int)
    requires
        0 <= i,
        i + 1 < s.len(),
        s[i] == '=' || s[i] == '!' || s[i] == '<' || s[i] == '>',
        s[i + 1] == '=',
    ensures
        scan_from(s, i).0 == seq![
            TokV { kind: with_equal_kind(s[i]), lexeme: s.subrange(i, i + 2), literal: None, line: line_at(s, i) },
        ] + scan_from(s, i + 2).0,
        scan_from(s, i).1 == scan_from(s, i + 2).1,
{
    assert(scan_one(s, i) == (Lexeme::Token(with_equal_kind(s[i]), None), i + 2));
    assert(Seq::<ScanError>::empty() + scan_from(s, i + 2).1 =~= scan_from(s, i + 2).1);
}

/// The state of a scanner, seen from outside.
pub struct ScannerV {
    pub source: Seq<char>,
    pub tokens: Seq<TokV>,
    pub errors: Seq<ScanError>,
    pub current: int,
}

/// Scans a source text into tokens.
pub struct Scanner {
    source: Vec<char>,
    tokens: Vec<Token>,
    errors: Vec<ScanError>,
    start: usize,
    current: usize,
    line: usize,
    keywords: Vec<(String, TokenType)>,
}

impl View for Scanner {
    type V = ScannerV;

    closed spec fn view(&self) -> ScannerV {
        ScannerV {
            source: self.source@,
            tokens: tokens_view(self.tokens@),
            errors: self.errors@,
            current: self.current as int,
        }
    }
}

proof fn lemma_newlines_bound(s: Seq<char>)
    ensures
        newlines(s) <= s.len(),
    decreases s.len(),
{
    if s.len() > 0 {
        lemma_newlines_bound(s.drop_last());
    }
}

/// Moving over one character moves the line on exactly when it is a newline.
proof fn lemma_line_step(s: Seq<char>, i: int)
    requires
        0 <= i < s.len(),
    ensures
        line_at(s, i + 1) == line_at(s, i) + if s[i] == '\n' {
            1int
        } else {
            0int
        },
        line_at(s, i + 1) <= i + 2,
{
    assert(s.subrange(0, i + 1).drop_last() =~= s.subrange(0, i));
    lemma_newlines_bound(s.subrange(0, i + 1));
}

/// The characters of `s`, one by one.
fn chars_of(s: &str) -> (r: Vec<char>)
    ensures
        r@ == s@,
{
    let n = s.unicode_len();
    let mut r: Vec<char> = Vec::new();
    let mut i: usize = 0;
    while i < n
        invariant
            n == s@.len(),
            i <= n,
            r@ == s@.subrange(0, i as int),
        decreases n - i,
    {
        r.push(s.get_char(i));
        assert(r@ =~= s@.subrange(0, i + 1));
        i = i + 1;
    }
    assert(r@ =~= s@);
    r
}

/// The characters of `v` from `a` up to `b`.
fn chars_between(v: &Vec<char>, a: usize, b: usize) -> (r: Vec<char>)
    requires
        a <= b <= v@.len(),
    ensures
        r@ == v@.subrange(a as int, b as int),
{
    let mut r: Vec<char> = Vec::new();
    let mut i: usize = a;
    while i < b
        invariant
            a <= i <= b,
            b <= v@.len(),
            r@ == v@.subrange(a as int, i as int),
        decreases b - i,
    {
        r.push(v[i]);
        assert(r@ =~= v@.subrange(a as int, i + 1));
        i = i + 1;
    }
    r
}

/// The text of the characters of `v` from `a` up to `b`.
fn text_between(v: &Vec<char>, a: usize, b: usize) -> (r: String)
    requires
        a <= b <= v@.len(),
    ensures
        r@ == v@.subrange(a as int, b as int),
{
    let mut r = String::new();
    let mut i: usize = a;
    while i < b
        invariant
            a <= i <= b,
            b <= v@.len(),
            r@ == v@.subrange(a as int, i as int),
        decreases b - i,
    {
        r.push(v[i]);
        assert(r@ =~= v@.subrange(a as int, i + 1));
        i = i + 1;
    }
    r
}

fn is_digit_char(c: char) -> (r: bool)
    ensures
        r == is_digit(c),
{
    '0' <= c && c <= '9'
}

fn is_alnum_char(c: char) -> (r: bool)
    ensures
        r == is_alnum(c),
{
    ('a' <= c && c <= 'z') || ('A' <= c && c <= 'Z') || c == '_' || ('0' <= c && c <= '9')
}

impl Scanner {
    /// The scanner's internal consistency: the reserved-word table, the
    /// cursor within the source, and the line counter at the cursor.
    pub closed spec fn wf(&self) -> bool {
        &&& table_view(self.keywords@) == keywords()
        &&& self.source@.len() < usize::MAX
        &&& self.start <= self.current <= self.source@.len()
        &&& self.line == line_at(self.source@, self.current as int)
    }

    pub fn new(source: String) -> (r: Scanner)
        requires
            source@.len() < usize::MAX,
        ensures
            r.wf(),
            r@ == (ScannerV { source: source@, tokens: Seq::empty(), errors: Seq::empty(), current: 0 }),
    {
        let chars = chars_of(source.as_str());
        let r = Scanner {
            source: chars,
            tokens: Vec::new(),
            errors: Vec::new(),
            start: 0,
            current: 0,
            line: 1,
            keywords: KeyWord::make_keywords(),
        };
        assert(r.source@.subrange(0, 0) =~= Seq::<char>::empty());
        assert(tokens_view(r.tokens@) =~= Seq::<TokV>::empty());
        r
    }

    /// The tokens scanned so far.
    pub fn get_tokens(self) -> (r: Vec<Token>)
        ensures
            tokens_view(r@) == self@.tokens,
    {
        self.tokens
    }

    /// Whether any problem was found.
    pub fn has_error(&self) -> (r: bool)
        ensures
            r == (self@.errors.len() > 0),
    {
        self.errors.len() > 0
    }

    /// The problems found so far, in the order they were met.
    pub fn errors(&self) -> (r: &Vec<ScanError>)
        ensures
            r@ == self@.errors,
    {
        &self.errors
    }

    fn is_at_end(&self) -> (r: bool)
        requires
            self.current <= self.source@.len(),
        ensures
            r == (self.current == self.source@.len()),
    {
        self.current >= self.source.len()
    }

    fn advance(&mut self) -> (c: char)
        requires
            old(self).current < old(self).source@.len(),
        ensures
            c == old(self).source@[old(self).current as int],
            *final(self) == (Scanner { current: (old(self).current + 1) as usize, ..*old(self) }),
    {
        let n = self.source.len();
        let c = self.source[self.current];
        assert(self.current < n);
        self.current = self.current + 1;
        c
    }

    fn peek(&self) -> (c: char)
        ensures
            c == if self.current < self.source@.len() {
                self.source@[self.current as int]
            } else {
                '\0'
            },
    {
        if self.current >= self.source.len() {
            '\0'
        } else {
            self.source[self.current]
        }
    }

    fn peek_next(&self) -> (c: char)
        ensures
            c == if self.current + 1 < self.source@.len() {
                self.source@[self.current + 1]
            } else {
                '\0'
            },
    {
        if self.current >= self.source.len() || self.current + 1 >= self.source.len() {
            '\0'
        } else {
            self.source[self.current + 1]
        }
    }

    fn match_next(&mut self, expected: &char) -> (r: bool)
        requires
            old(self).current <= old(self).source@.len(),
        ensures
            r == (old(self).current < old(self).source@.len() && old(self).source@[old(self).current as int] == *expected),
            *final(self) == (Scanner {
                current: (if r { old(self).current + 1 } else { old(self).current as int }) as usize,
                ..*old(self)
            }),
    {
        if self.is_at_end() {
            return false;
        }
        if self.source[self.current] != *expected {
            return false;
        }
        let n = self.source.len();
        assert(self.current < n);
        self.current = self.current + 1;
        true
    }

    fn add_token(&mut self, token: TokenType, literal: Option<Literal>)
        requires
            old(self).start <= old(self).current <= old(self).source@.len(),
        ensures
            final(self).source == old(self).source,
            final(self).keywords == old(self).keywords,
            final(self).errors == old(self).errors,
            final(self).start == old(self).start,
            final(self).current == old(self).current,
            final(self).line == old(self).line,
            tokens_view(final(self).tokens@) == tokens_view(old(self).tokens@).push(
                TokV {
                    kind: token,
                    lexeme: old(self).source@.subrange(old(self).start as int, old(self).current as int),
                    literal: match literal {
                        Some(l) => Some(l@),
                        None => None,
                    },
                    line: old(self).line as int,
                },
            ),
    {
        let text = text_between(&self.source, self.start, self.current);
        self.tokens.push(Token::new(token, text, literal, self.line));
        assert(tokens_view(self.tokens@) =~= tokens_view(old(self).tokens@).push(
            self.tokens@.last()@,
        ));
    }

    /// After a lexeme `lx` that started at `self.start` and ended at `e`:
    /// the cursor is at `e` with its line, and what the lexeme yields has been
    /// recorded.
    spec fn lexeme_done(&self, before: &Scanner, lx: Lexeme, e: int) -> bool {
        &&& self.source == before.source
        &&& self.keywords == before.keywords
        &&& self.start == before.start
        &&& self.current == e
        &&& before.start < e <= before.source@.len()
        &&& self.line == line_at(before.source@, e)
        &&& tokens_view(self.tokens@) == tokens_view(before.tokens@) + emitted_tokens(
            before.source@,
            before.start as int,
            lx,
            e,
        )
        &&& self.errors@ == before.errors@ + emitted_errors(before.source@, before.start as int, lx)
    }

    fn string(&mut self)
        requires
            old(self).wf(),
            old(self).current == old(self).start + 1,
            old(self).source@[old(self).start as int] == '"',
        ensures
            final(self).lexeme_done(
                old(self),
                string_lexeme(old(self).source@, old(self).start as int).0,
                string_lexeme(old(self).source@, old(self).start as int).1,
            ),
    {
        let ghost s = self.source@;
        let ghost i = self.start as int;
        proof {
            lemma_line_step(s, i);
        }
        let mut nl: usize = self.line;
        while self.peek() != '"' && !self.is_at_end()
            invariant
                *self == (Scanner { current: self.current, ..*old(self) }),
                s == self.source@,
                s.len() < usize::MAX,
                i + 1 <= self.current <= s.len(),
                quote_end(s, i + 1) == quote_end(s, self.current as int),
                nl == line_at(s, self.current as int),
                self.line == line_at(s, i),
            decreases s.len() - self.current,
        {
            proof {
                lemma_line_step(s, self.current as int);
            }
            let c = self.advance();
            if c == '\n' {
                nl = nl + 1;
            }
        }
        if self.is_at_end() {
            assert(quote_end(s, self.current as int) == s.len());
            assert(string_lexeme(s, i) == (Lexeme::Unterminated, s.len() as int));
            self.errors.push(ScanError::UnterminatedString { line: self.line });
            assert(self.errors@ =~= old(self).errors@ + emitted_errors(s, i, Lexeme::Unterminated));
            self.line = nl;
            assert(tokens_view(self.tokens@) =~= tokens_view(old(self).tokens@) + Seq::<TokV>::empty());
            return;
        }
        proof {
            lemma_line_step(s, self.current as int);
        }
        assert(quote_end(s, self.current as int) == self.current);
        self.advance();
        let value = text_between(&self.source, self.start + 1, self.current - 1);
        self.add_token(TokenType::String, Some(Literal::String(value)));
        assert(tokens_view(self.tokens@) =~= tokens_view(old(self).tokens@) + emitted_tokens(
            s,
            i,
            string_lexeme(s, i).0,
            string_lexeme(s, i).1,
        ));
        self.line = nl;
        assert(self.errors@ =~= old(self).errors@ + Seq::<ScanError>::empty());
    }

    fn number(&mut self)
        requires
            old(self).wf(),
            old(self).current == old(self).start + 1,
            is_digit(old(self).source@[old(self).start as int]),
        ensures
            final(self).lexeme_done(
                old(self),
                number_lexeme(old(self).source@, old(self).start as int).0,
                number_lexeme(old(self).source@, old(self).start as int).1,
            ),
    {
        let ghost s = self.source@;
        let ghost i = self.start as int;
        proof {
            lemma_line_step(s, i);
        }
        while is_digit_char(self.peek())
            invariant
                *self == (Scanner { current: self.current, ..*old(self) }),
                s == self.source@,
                s.len() < usize::MAX,
                i + 1 <= self.current <= s.len(),
                digits_end(s, i + 1) == digits_end(s, self.current as int),
                line_at(s, self.current as int) == line_at(s, i),
                self.line == line_at(s, i),
                forall|k: int| i <= k < self.current ==> is_digit(#[trigger] s[k]),
            decreases s.len() - self.current,
        {
            proof {
                lemma_line_step(s, self.current as int);
            }
            self.advance();
        }
        let int_end = self.current;
        let mut frac_start = int_end;
        let mut frac_end = int_end;
        if self.peek() == '.' && is_digit_char(self.peek_next()) {
            proof {
                lemma_line_step(s, self.current as int);
            }
            self.advance();
            frac_start = self.current;
            while is_digit_char(self.peek())
                invariant
                    *self == (Scanner { current: self.current, ..*old(self) }),
                    s == self.source@,
                    s.len() < usize::MAX,
                    frac_start == int_end + 1,
                    frac_start <= self.current <= s.len(),
                    digits_end(s, frac_start as int) == digits_end(s, self.current as int),
                    line_at(s, self.current as int) == line_at(s, i),
                    self.line == line_at(s, i),
                    forall|k: int| frac_start <= k < self.current ==> is_digit(#[trigger] s[k]),
                decreases s.len() - self.current,
            {
                proof {
                    lemma_line_step(s, self.current as int);
                }
                self.advance();
            }
            frac_end = self.current;
        }
        assert(digits_end(s, int_end as int) == int_end);
        assert(frac_start < frac_end ==> digits_end(s, frac_start as int) == frac_end);
        assert(has_fraction(s, int_end as int) <==> frac_start < frac_end);
        let ip = chars_between(&self.source, self.start, int_end);
        let fp = chars_between(&self.source, frac_start, frac_end);
        assert(all_digits(ip@)) by {
            assert forall|k: int| 0 <= k < ip@.len() implies is_digit(#[trigger] ip@[k]) by {
                assert(ip@[k] == s[i + k]);
            }
        }
        assert(all_digits(fp@)) by {
            assert forall|k: int| 0 <= k < fp@.len() implies is_digit(#[trigger] fp@[k]) by {
                assert(fp@[k] == s[frac_start + k]);
            }
        }
        let n = Number::from_digits(ip.as_slice(), fp.as_slice());
        self.add_token(TokenType::Number, Some(Literal::Number(n)));
        assert(tokens_view(self.tokens@) =~= tokens_view(old(self).tokens@) + emitted_tokens(
            s,
            i,
            number_lexeme(s, i).0,
            number_lexeme(s, i).1,
        ));
        assert(self.errors@ =~= old(self).errors@ + Seq::<ScanError>::empty());
    }

    fn identifier(&mut self)
        requires
            old(self).wf(),
            old(self).current == old(self).start + 1,
            is_alpha(old(self).source@[old(self).start as int]),
        ensures
            final(self).lexeme_done(
                old(self),
                identifier_lexeme(old(self).source@, old(self).start as int).0,
                identifier_lexeme(old(self).source@, old(self).start as int).1,
            ),
    {
        let ghost s = self.source@;
        let ghost i = self.start as int;
        proof {
            lemma_line_step(s, i);
        }
        while is_alnum_char(self.peek()) && !self.is_at_end()
            invariant
                *self == (Scanner { current: self.current, ..*old(self) }),
                s == self.source@,
                s.len() < usize::MAX,
                i + 1 <= self.current <= s.len(),
                ident_end(s, i + 1) == ident_end(s, self.current as int),
                line_at(s, self.current as int) == line_at(s, i),
                self.line == line_at(s, i),
            decreases s.len() - self.current,
        {
            proof {
                lemma_line_step(s, self.current as int);
            }
            self.advance();
        }
        assert(ident_end(s, self.current as int) == self.current);
        let word = chars_between(&self.source, self.start, self.current);
        let kind = match KeyWord::lookup(&self.keywords, word.as_slice()) {
            Some(k) => k,
            None => TokenType::Identifier,
        };
        self.add_token(kind, None);
        assert(tokens_view(self.tokens@) =~= tokens_view(old(self).tokens@) + emitted_tokens(
            s,
            i,
            identifier_lexeme(s, i).0,
            identifier_lexeme(s, i).1,
        ));
        assert(self.errors@ =~= old(self).errors@ + Seq::<ScanError>::empty());
    }

    fn scan_token(&mut self)
        requires
            old(self).wf(),
            old(self).start == old(self).current,
            old(self).current < old(self).source@.len(),
        ensures
            final(self).wf(),
            final(self).current > old(self).current,
            final(self).lexeme_done(
                old(self),
                scan_one(old(self).source@, old(self).current as int).0,
                scan_one(old(self).source@, old(self).current as int).1,
            ),
    {
        let ghost s = self.source@;
        let ghost i = self.start as int;
        proof {
            lemma_line_step(s, i);
        }
        let c = self.advance();
        let ghost no_token = tokens_view(self.tokens@) =~= tokens_view(old(self).tokens@) + Seq::<TokV>::empty();
        let ghost no_error = self.errors@ =~= old(self).errors@ + Seq::<ScanError>::empty();
        match c {
            '(' => self.add_token(TokenType::LeftParan, None),
            ')' => self.add_token(TokenType::RightParan, None),
            '{' => self.add_token(TokenType::LeftBrace, None),
            '}' => self.add_token(TokenType::RightBrace, None),
            '+' => self.add_token(TokenType::Plus, None),
            '-' => self.add_token(TokenType::Minus, None),
            '*' => self.add_token(TokenType::Star, None),
            ',' => self.add_token(TokenType::Comma, None),
            '.' => self.add_token(TokenType::Dot, None),
            ';' => self.add_token(TokenType::Semicolon, None),
            '=' => {
                let two = self.match_next(&'=');
                proof {
                    if two {
                        lemma_line_step(s, i + 1);
                    }
                }
                self.add_token(if two { TokenType::EqualEqual } else { TokenType::Equal }, None);
            },
            '!' => {
                let two = self.match_next(&'=');
                proof {
                    if two {
                        lemma_line_step(s, i + 1);
                    }
                }
                self.add_token(if two { TokenType::BangEqual } else { TokenType::Bang }, None);
            },
            '<' => {
                let two = self.match_next(&'=');
                proof {
                    if two {
                        lemma_line_step(s, i + 1);
                    }
                }
                self.add_token(if two { TokenType::LessEqual } else { TokenType::Less }, None);
            },
            '>' => {
                let two = self.match_next(&'=');
                proof {
                    if two {
                        lemma_line_step(s, i + 1);
                    }
                }
                self.add_token(if two { TokenType::GreaterEqual } else { TokenType::Greater }, None);
            },
            '/' => {
                if self.match_next(&'/') {
                    proof {
                        lemma_line_step(s, i + 1);
                    }
                    while self.peek() != '\n' && !self.is_at_end()
                        invariant
                            *self == (Scanner { current: self.current, ..*old(self) }),
                            s == self.source@,
                            s.len() < usize::MAX,
                            i + 2 <= self.current <= s.len(),
                            comment_end(s, i + 2) == comment_end(s, self.current as int),
                            line_at(s, self.current as int) == line_at(s, i),
                            self.line == line_at(s, i),
                        decreases s.len() - self.current,
                    {
                        proof {
                            lemma_line_step(s, self.current as int);
                        }
                        self.advance();
                    }
                    assert(no_token && no_error);
                } else {
                    self.add_token(TokenType::Slash, None);
                }
            },
            '"' => self.string(),
            '0'..='9' => self.number(),
            'a'..='z' | 'A'..='Z' | '_' => self.identifier(),
            '\n' => {
                self.line = self.line + 1;
                assert(no_token && no_error);
            },
            ' ' | '\r' | '\t' => {
                assert(no_token && no_error);
            },
            _ => {
                self.errors.push(ScanError::UnexpectedCharacter { line: self.line, c });
                assert(no_token);
            },
        }
    }

    /// Scans the rest of the source and appends the end-of-stream token.
    pub fn scan_tokens(&mut self)
        requires
            old(self).wf(),
        ensures
            final(self).wf(),
            final(self)@.source == old(self)@.source,
            final(self)@.current == old(self)@.source.len(),
            final(self)@.tokens == old(self)@.tokens + scan_from(old(self)@.source, old(self)@.current).0,
            final(self)@.errors == old(self)@.errors + scan_from(old(self)@.source, old(self)@.current).1,
    {
        let ghost s = self.source@;
        let ghost t0 = tokens_view(self.tokens@);
        let ghost e0 = self.errors@;
        let ghost c0 = self.current as int;
        while !self.is_at_end()
            invariant
                self.wf(),
                self.source@ == s,
                tokens_view(self.tokens@) + scan_from(s, self.current as int).0 == t0 + scan_from(s, c0).0,
                self.errors@ + scan_from(s, self.current as int).1 == e0 + scan_from(s, c0).1,
            decreases s.len() - self.current,
        {
            let ghost before = *self;
            self.start = self.current;
            self.scan_token();
            proof {
                let i = before.current as int;
                let (lx, e) = scan_one(s, i);
                assert(e == self.current);
                assert(scan_from(s, i).0 == emitted_tokens(s, i, lx, e) + scan_from(s, e).0);
                assert(tokens_view(self.tokens@) + scan_from(s, e).0 =~= tokens_view(before.tokens@)
                    + scan_from(s, i).0);
                assert(self.errors@ + scan_from(s, e).1 =~= before.errors@ + scan_from(s, i).1);
            }
        }
        let ghost before = *self;
        self.tokens.push(Token::new(TokenType::EOF, String::new(), None, self.line));
        proof {
            assert(tokens_view(self.tokens@) =~= tokens_view(before.tokens@).push(eof_token(s)));
            assert(tokens_view(self.tokens@) =~= tokens_view(before.tokens@) + scan_from(s, s.len() as int).0);
            assert(self.errors@ =~= self.errors@ + scan_from(s, s.len() as int).1);
        }
    }
}

} // verus!
