//! The tokenizer: splits Lox source text into tokens.
//!
//! Tokens are matched longest-first; among matches of equal length a keyword or an operator
//! wins over an identifier, and a lone newline over a run of whitespace. Whitespace, comments
//! and newlines are skipped; only a newline that is not part of a longer whitespace run
//! advances the line counter carried in tokens.
use vstd::prelude::*;
use vstd::string::{StringExecFns, StringSliceAdditionalSpecFns};

use crate::decimal::{decimal, decimal_text};
use crate::parser::{is_char_range, substr, Span};

verus! {

broadcast use vstd::utf8::group_utf8_lib;

/// The kinds of tokens.
#[derive(Debug, PartialEq, Eq, Structural, Clone, Copy)]
pub enum TokenType {
    Error,
    LeftParen,
    RightParen,
    LeftBrace,
    RightBrace,
    Comma,
    Dot,
    Minus,
    Plus,
    Semicolon,
    Slash,
    Star,
    Bang,
    BantEqual,
    Equal,
    EqualEqual,
    Greater,
    GreaterEqual,
    Less,
    LessEqual,
    Identifier,
    String,
    Number,
    And,
    Class,
    Else,
    False,
    For,
    Fun,
    If,
    Nil,
    Or,
    Print,
    Return,
    Super,
    This,
    True,
    Var,
    While,
    Newline,
}

/// An error of the tokenizer.
#[derive(Debug, Default, Clone, Copy, PartialEq, Eq, Structural)]
pub enum LexerError {
    #[default]
    InvalidToken,
    InvalidTokenAt { start: usize, end: usize },
    UnterminatedString { line: usize },
    UnexpectedCharacter { line: usize },
}

impl LexerError {
    /// The message the error is reported with.
    pub fn message(&self) -> (r: String)
        ensures
            r@ == lexer_error_message(*self),
    {
        match self {
            LexerError::InvalidToken => String::from_str("Invalid token found"),
            LexerError::InvalidTokenAt { start, end } => {
                let mut r = String::from_str("Invalid token found at ");
                r.append(decimal(*start).as_str());
                r.append("..");
                r.append(decimal(*end).as_str());
                r
            },
            LexerError::UnterminatedString { .. } => String::from_str("Unterminated string"),
            LexerError::UnexpectedCharacter { .. } => String::from_str("Unexpected character"),
        }
    }

    /// The error as its debugging form prints it: the variant's name and its fields.
    pub fn debug_text(&self) -> (r: String)
        ensures
            r@ == lexer_error_debug_text(*self),
    {
        match self {
            LexerError::InvalidToken => String::from_str("InvalidToken"),
            LexerError::InvalidTokenAt { start, end } => {
                let mut r = String::from_str("InvalidTokenAt { start: ");
                r.append(decimal(*start).as_str());
                r.append(", end: ");
                r.append(decimal(*end).as_str());
                r.append(" }");
                r
            },
            LexerError::UnterminatedString { line } => {
                let mut r = String::from_str("UnterminatedString { line: ");
                r.append(decimal(*line).as_str());
                r.append(" }");
                r
            },
            LexerError::UnexpectedCharacter { line } => {
                let mut r = String::from_str("UnexpectedCharacter { line: ");
                r.append(decimal(*line).as_str());
                r.append(" }");
                r
            },
        }
    }
}

/// The message of each tokenizer error.
pub open spec fn lexer_error_message(e: LexerError) -> Seq<char> {
    match e {
        LexerError::InvalidToken => "Invalid token found"@,
        LexerError::InvalidTokenAt { start, end } => "Invalid token found at "@ + decimal_text(
            start as nat,
        ) + ".."@ + decimal_text(end as nat),
        LexerError::UnterminatedString { .. } => "Unterminated string"@,
        LexerError::UnexpectedCharacter { .. } => "Unexpected character"@,
    }
}

/// The debugging form of each tokenizer error.
pub open spec fn lexer_error_debug_text(e: LexerError) -> Seq<char> {
    match e {
        LexerError::InvalidToken => "InvalidToken"@,
        LexerError::InvalidTokenAt { start, end } => "InvalidTokenAt { start: "@ + decimal_text(
            start as nat,
        ) + ", end: "@ + decimal_text(end as nat) + " }"@,
        LexerError::UnterminatedString { line } => "UnterminatedString { line: "@ + decimal_text(
            line as nat,
        ) + " }"@,
        LexerError::UnexpectedCharacter { line } => "UnexpectedCharacter { line: "@
            + decimal_text(line as nat) + " }"@,
    }
}

/// A token: its kind, its byte range in the source, and the line counter when it was read.
#[derive(Debug, PartialEq, Eq, Structural, Clone, Copy)]
pub struct Token {
    pub token_type: TokenType,
    pub start: usize,
    pub end: usize,
    pub line: usize,
}

impl Token {
    /// The text of the token in `v`.
    pub fn slice<'a>(&self, v: &'a str) -> (r: &'a str)
        requires
            is_char_range(v, self.start, self.end),
        ensures
            r.spec_bytes() == v.spec_bytes().subrange(self.start as int, self.end as int),
    {
        substr(v, self.start, self.end)
    }

    /// The kind of the token.
    pub fn ty(&self) -> (r: TokenType)
        ensures
            r == self.token_type,
    {
        self.token_type
    }

    /// The first byte position of the token.
    pub fn start(&self) -> (r: usize)
        ensures
            r == self.start,
    {
        self.start
    }

    /// The byte position just after the token.
    pub fn end(&self) -> (r: usize)
        ensures
            r == self.end,
    {
        self.end
    }

    /// The byte range of the token.
    pub fn span(&self) -> (r: Span)
        ensures
            r.start == self.start,
            r.end == self.end,
    {
        Span::new(self.start, self.end)
    }
}

// ---------------------------------------------------------------------------
// The token grammar, as mathematics
// ---------------------------------------------------------------------------

/// Space, tab, newline and form feed.
pub open spec fn is_space(b: u8) -> bool {
    b == 32 || b == 9 || b == 10 || b == 12
}

/// An ASCII decimal digit.
pub open spec fn is_digit(b: u8) -> bool {
    48 <= b <= 57
}

/// A byte that may begin an identifier: an ASCII letter or `_`.
pub open spec fn is_alpha(b: u8) -> bool {
    (65 <= b <= 90) || (97 <= b <= 122) || b == 95
}

/// The classes of bytes whose runs the grammar measures.
#[derive(PartialEq, Eq, Structural, Clone, Copy)]
pub enum ByteClass {
    Space,
    Word,
    Digit,
    NotNewline,
    NotQuote,
}

/// Whether `b` belongs to class `c`.
pub open spec fn in_class(c: ByteClass, b: u8) -> bool {
    match c {
        ByteClass::Space => is_space(b),
        ByteClass::Word => is_alpha(b) || is_digit(b),
        ByteClass::Digit => is_digit(b),
        ByteClass::NotNewline => b != 10,
        ByteClass::NotQuote => b != 34,
    }
}

/// The length of the run of bytes of class `c` that starts at `s[i]`.
pub open spec fn run_len(s: Seq<u8>, i: int, c: ByteClass) -> nat
    decreases s.len() - i,
{
    if 0 <= i < s.len() && in_class(c, s[i]) {
        1 + run_len(s, i + 1, c)
    } else {
        0
    }
}

/// The number of bytes of the UTF-8 character whose first byte is `b`.
pub open spec fn char_width(b: u8) -> int {
    if b < 0x80 {
        1
    } else if b < 0xe0 {
        2
    } else if b < 0xf0 {
        3
    } else {
        4
    }
}

/// The keyword spelled by `w`, if any.
pub open spec fn keyword(w: Seq<u8>) -> Option<TokenType> {
    if w == seq![97u8, 110, 100] {
        Some(TokenType::And)
    } else if w == seq![99u8, 108, 97, 115, 115] {
        Some(TokenType::Class)
    } else if w == seq![101u8, 108, 115, 101] {
        Some(TokenType::Else)
    } else if w == seq![102u8, 97, 108, 115, 101] {
        Some(TokenType::False)
    } else if w == seq![102u8, 111, 114] {
        Some(TokenType::For)
    } else if w == seq![102u8, 117, 110] {
        Some(TokenType::Fun)
    } else if w == seq![105u8, 102] {
        Some(TokenType::If)
    } else if w == seq![110u8, 105, 108] {
        Some(TokenType::Nil)
    } else if w == seq![111u8, 114] {
        Some(TokenType::Or)
    } else if w == seq![112u8, 114, 105, 110, 116] {
        Some(TokenType::Print)
    } else if w == seq![114u8, 101, 116, 117, 114, 110] {
        Some(TokenType::Return)
    } else if w == seq![115u8, 117, 112, 101, 114] {
        Some(TokenType::Super)
    } else if w == seq![116u8, 104, 105, 115] {
        Some(TokenType::This)
    } else if w == seq![116u8, 114, 117, 101] {
        Some(TokenType::True)
    } else if w == seq![118u8, 97, 114] {
        Some(TokenType::Var)
    } else if w == seq![119u8, 104, 105, 108, 101] {
        Some(TokenType::While)
    } else {
        None
    }
}

/// What the tokenizer finds at one position.
#[derive(PartialEq, Eq, Structural, Clone, Copy)]
pub enum Scan {
    /// Text to skip up to `end`; `newline` where it is a lone newline.
    Skip { end: usize, newline: bool },
    /// A token of kind `kind` ending at `end`.
    Tok { kind: TokenType, end: usize },
    /// Text that begins no token, up to `end`.
    Bad { end: usize },
}

/// The longest match at `s[p]`, where `p` lies inside `s`.
pub open spec fn spec_scan(s: Seq<u8>, p: int) -> Scan {
    let c = s[p];
    let has_next = p + 1 < s.len();
    let n = s[p + 1];
    if c == 10 && !(has_next && is_space(n)) {
        Scan::Skip { end: (p + 1) as usize, newline: true }
    } else if is_space(c) {
        Scan::Skip { end: (p + run_len(s, p, ByteClass::Space)) as usize, newline: false }
    } else if c == 47 && has_next && n == 47 {
        let e = p + 2 + run_len(s, p + 2, ByteClass::NotNewline);
        Scan::Skip {
            end: (if e < s.len() {
                e + 1
            } else {
                e
            }) as usize,
            newline: false,
        }
    } else if c == 40 {
        Scan::Tok { kind: TokenType::LeftParen, end: (p + 1) as usize }
    } else if c == 41 {
        Scan::Tok { kind: TokenType::RightParen, end: (p + 1) as usize }
    } else if c == 123 {
        Scan::Tok { kind: TokenType::LeftBrace, end: (p + 1) as usize }
    } else if c == 125 {
        Scan::Tok { kind: TokenType::RightBrace, end: (p + 1) as usize }
    } else if c == 44 {
        Scan::Tok { kind: TokenType::Comma, end: (p + 1) as usize }
    } else if c == 46 {
        Scan::Tok { kind: TokenType::Dot, end: (p + 1) as usize }
    } else if c == 45 {
        Scan::Tok { kind: TokenType::Minus, end: (p + 1) as usize }
    } else if c == 43 {
        Scan::Tok { kind: TokenType::Plus, end: (p + 1) as usize }
    } else if c == 59 {
        Scan::Tok { kind: TokenType::Semicolon, end: (p + 1) as usize }
    } else if c == 47 {
        Scan::Tok { kind: TokenType::Slash, end: (p + 1) as usize }
    } else if c == 42 {
        Scan::Tok { kind: TokenType::Star, end: (p + 1) as usize }
    } else if c == 33 {
        if has_next && n == 61 {
            Scan::Tok { kind: TokenType::BantEqual, end: (p + 2) as usize }
        } else {
            Scan::Tok { kind: TokenType::Bang, end: (p + 1) as usize }
        }
    } else if c == 61 {
        if has_next && n == 61 {
            Scan::Tok { kind: TokenType::EqualEqual, end: (p + 2) as usize }
        } else {
            Scan::Tok { kind: TokenType::Equal, end: (p + 1) as usize }
        }
    } else if c == 62 {
        if has_next && n == 61 {
            Scan::Tok { kind: TokenType::GreaterEqual, end: (p + 2) as usize }
        } else {
            Scan::Tok { kind: TokenType::Greater, end: (p + 1) as usize }
        }
    } else if c == 60 {
        if has_next && n == 61 {
            Scan::Tok { kind: TokenType::LessEqual, end: (p + 2) as usize }
        } else {
            Scan::Tok { kind: TokenType::Less, end: (p + 1) as usize }
        }
    } else if is_alpha(c) {
        let e = p + 1 + run_len(s, p + 1, ByteClass::Word);
        Scan::Tok {
            kind: match keyword(s.subrange(p, e)) {
                Some(k) => k,
                None => TokenType::Identifier,
            },
            end: e as usize,
        }
    } else if is_digit(c) {
        let e = p + run_len(s, p, ByteClass::Digit);
        if e + 1 < s.len() && s[e] == 46 && is_digit(s[e + 1]) {
            Scan::Tok {
                kind: TokenType::Number,
                end: (e + 1 + run_len(s, e + 1, ByteClass::Digit)) as usize,
            }
        } else {
            Scan::Tok { kind: TokenType::Number, end: e as usize }
        }
    } else if c == 34 {
        let q = p + 1 + run_len(s, p + 1, ByteClass::NotQuote);
        if q < s.len() {
            Scan::Tok { kind: TokenType::String, end: (q + 1) as usize }
        } else {
            Scan::Bad { end: s.len() as usize }
        }
    } else {
        Scan::Bad {
            end: (if p + char_width(c) <= s.len() {
                p + char_width(c)
            } else {
                s.len() as int
            }) as usize,
        }
    }
}

/// The number of newline bytes among the first `i` bytes of `s`.
pub open spec fn newline_count(s: Seq<u8>, i: int) -> nat
    decreases i,
{
    if i <= 0 || i > s.len() {
        0
    } else {
        newline_count(s, i - 1) + (if s[i - 1] == 10 { 1nat } else { 0nat })
    }
}

/// The error for text at `p` that begins no token: an unterminated string where it begins with
/// a quote, else an unexpected character; both carry the line of `p`, counted from 1.
pub open spec fn spec_bad_error(s: Seq<u8>, p: int) -> LexerError {
    if s[p] == 34 {
        LexerError::UnterminatedString { line: (newline_count(s, p) + 1) as usize }
    } else {
        LexerError::UnexpectedCharacter { line: (newline_count(s, p) + 1) as usize }
    }
}

/// What `next_token` answers at position `p` with line counter `line`, and the position and
/// line counter it leaves: skipped text is passed over, then the next token or error is
/// returned; `None` at the end of the text.
pub open spec fn spec_next(s: Seq<u8>, p: int, line: int) -> (Option<Result<Token, LexerError>>, int, int)
    decreases s.len() - p,
{
    if p < 0 || p >= s.len() {
        (None, p, line)
    } else {
        match spec_scan(s, p) {
            Scan::Skip { end, newline } => if p < end <= s.len() {
                spec_next(s, end as int, line + if newline { 1int } else { 0int })
            } else {
                (None, p, line)
            },
            Scan::Tok { kind, end } => (
                Some(
                    Ok(Token { token_type: kind, start: p as usize, end, line: line as usize }),
                ),
                end as int,
                line,
            ),
            Scan::Bad { end } => (Some(Err(spec_bad_error(s, p))), end as int, line),
        }
    }
}

// ---------------------------------------------------------------------------
// Scanning
// ---------------------------------------------------------------------------

fn in_byte_class(c: ByteClass, b: u8) -> (r: bool)
    ensures
        r == in_class(c, b),
{
    match c {
        ByteClass::Space => b == 32 || b == 9 || b == 10 || b == 12,
        ByteClass::Word => (65 <= b && b <= 90) || (97 <= b && b <= 122) || b == 95 || (48 <= b
            && b <= 57),
        ByteClass::Digit => 48 <= b && b <= 57,
        ByteClass::NotNewline => b != 10,
        ByteClass::NotQuote => b != 34,
    }
}

/// The end of the run of class `c` that starts at `i`.
fn run_end(s: &[u8], i: usize, c: ByteClass) -> (r: usize)
    requires
        i <= s@.len(),
    ensures
        r == i + run_len(s@, i as int, c),
        r <= s@.len(),
{
    let mut j = i;
    while j < s.len() && in_byte_class(c, s[j])
        invariant
            i <= j <= s@.len(),
            run_len(s@, i as int, c) == (j - i) + run_len(s@, j as int, c),
        decreases s@.len() - j,
    {
        j = j + 1;
    }
    j
}

proof fn lemma_run_len_bound(s: Seq<u8>, i: int, c: ByteClass)
    requires
        0 <= i <= s.len(),
    ensures
        i + run_len(s, i, c) <= s.len(),
    decreases s.len() - i,
{
    if i < s.len() && in_class(c, s[i]) {
        lemma_run_len_bound(s, i + 1, c);
    }
}

/// Whether `s[start..end]` spells `kw`.
fn word_is<const N: usize>(s: &[u8], start: usize, end: usize, kw: [u8; N]) -> (r: bool)
    requires
        start <= end <= s@.len(),
    ensures
        r == (s@.subrange(start as int, end as int) == kw@),
{
    if end - start != N {
        proof {
            assert(s@.subrange(start as int, end as int).len() != kw@.len());
        }
        return false;
    }
    let mut k: usize = 0;
    while k < N
        invariant
            0 <= k <= N,
            end - start == N,
            start <= end <= s@.len(),
            forall|m: int| 0 <= m < k ==> s@[start + m] == kw@[m],
        decreases N - k,
    {
        if s[start + k] != kw[k] {
            proof {
                assert(s@.subrange(start as int, end as int)[k as int] != kw@[k as int]);
            }
            return false;
        }
        k = k + 1;
    }
    assert(s@.subrange(start as int, end as int) =~= kw@);
    true
}

/// The kind of the word `s[start..end]`: a keyword, else an identifier.
fn word_kind(s: &[u8], start: usize, end: usize) -> (r: TokenType)
    requires
        start <= end <= s@.len(),
    ensures
        r == (match keyword(s@.subrange(start as int, end as int)) {
            Some(k) => k,
            None => TokenType::Identifier,
        }),
{
    proof {
        let w = s@.subrange(start as int, end as int);
        assert(seq![97u8, 110, 100] =~= [97u8, 110, 100]@);
        assert(seq![99u8, 108, 97, 115, 115] =~= [99u8, 108, 97, 115, 115]@);
        assert(seq![101u8, 108, 115, 101] =~= [101u8, 108, 115, 101]@);
        assert(seq![102u8, 97, 108, 115, 101] =~= [102u8, 97, 108, 115, 101]@);
        assert(seq![102u8, 111, 114] =~= [102u8, 111, 114]@);
        assert(seq![102u8, 117, 110] =~= [102u8, 117, 110]@);
        assert(seq![105u8, 102] =~= [105u8, 102]@);
        assert(seq![110u8, 105, 108] =~= [110u8, 105, 108]@);
        assert(seq![111u8, 114] =~= [111u8, 114]@);
        assert(seq![112u8, 114, 105, 110, 116] =~= [112u8, 114, 105, 110, 116]@);
        assert(seq![114u8, 101, 116, 117, 114, 110] =~= [114u8, 101, 116, 117, 114, 110]@);
        assert(seq![115u8, 117, 112, 101, 114] =~= [115u8, 117, 112, 101, 114]@);
        assert(seq![116u8, 104, 105, 115] =~= [116u8, 104, 105, 115]@);
        assert(seq![116u8, 114, 117, 101] =~= [116u8, 114, 117, 101]@);
        assert(seq![118u8, 97, 114] =~= [118u8, 97, 114]@);
        assert(seq![119u8, 104, 105, 108, 101] =~= [119u8, 104, 105, 108, 101]@);
    }
    if word_is(s, start, end, [97u8, 110, 100]) {
        TokenType::And
    } else if word_is(s, start, end, [99u8, 108, 97, 115, 115]) {
        TokenType::Class
    } else if word_is(s, start, end, [101u8, 108, 115, 101]) {
        TokenType::Else
    } else if word_is(s, start, end, [102u8, 97, 108, 115, 101]) {
        TokenType::False
    } else if word_is(s, start, end, [102u8, 111, 114]) {
        TokenType::For
    } else if word_is(s, start, end, [102u8, 117, 110]) {
        TokenType::Fun
    } else if word_is(s, start, end, [105u8, 102]) {
        TokenType::If
    } else if word_is(s, start, end, [110u8, 105, 108]) {
        TokenType::Nil
    } else if word_is(s, start, end, [111u8, 114]) {
        TokenType::Or
    } else if word_is(s, start, end, [112u8, 114, 105, 110, 116]) {
        TokenType::Print
    } else if word_is(s, start, end, [114u8, 101, 116, 117, 114, 110]) {
        TokenType::Return
    } else if word_is(s, start, end, [115u8, 117, 112, 101, 114]) {
        TokenType::Super
    } else if word_is(s, start, end, [116u8, 104, 105, 115]) {
        TokenType::This
    } else if word_is(s, start, end, [116u8, 114, 117, 101]) {
        TokenType::True
    } else if word_is(s, start, end, [118u8, 97, 114]) {
        TokenType::Var
    } else if word_is(s, start, end, [119u8, 104, 105, 108, 101]) {
        TokenType::While
    } else {
        TokenType::Identifier
    }
}

/// The longest match at `s[p]`.
pub fn scan(s: &[u8], p: usize) -> (r: Scan)
    requires
        p < s@.len(),
    ensures
        r == spec_scan(s@, p as int),
{
    let len = s.len();
    let c = s[p];
    let has_next = p + 1 < len;
    let n: u8 = if has_next {
        s[p + 1]
    } else {
        0
    };
    proof {
        lemma_run_len_bound(s@, p as int, ByteClass::Space);
        lemma_run_len_bound(s@, p as int, ByteClass::Digit);
    }
    if c == 10 && !(has_next && (n == 32 || n == 9 || n == 10 || n == 12)) {
        Scan::Skip { end: p + 1, newline: true }
    } else if c == 32 || c == 9 || c == 10 || c == 12 {
        Scan::Skip { end: run_end(s, p, ByteClass::Space), newline: false }
    } else if c == 47 && has_next && n == 47 {
        let e = run_end(s, p + 2, ByteClass::NotNewline);
        Scan::Skip {
            end: if e < len {
                e + 1
            } else {
                e
            },
            newline: false,
        }
    } else if c == 40 {
        Scan::Tok { kind: TokenType::LeftParen, end: p + 1 }
    } else if c == 41 {
        Scan::Tok { kind: TokenType::RightParen, end: p + 1 }
    } else if c == 123 {
        Scan::Tok { kind: TokenType::LeftBrace, end: p + 1 }
    } else if c == 125 {
        Scan::Tok { kind: TokenType::RightBrace, end: p + 1 }
    } else if c == 44 {
        Scan::Tok { kind: TokenType::Comma, end: p + 1 }
    } else if c == 46 {
        Scan::Tok { kind: TokenType::Dot, end: p + 1 }
    } else if c == 45 {
        Scan::Tok { kind: TokenType::Minus, end: p + 1 }
    } else if c == 43 {
        Scan::Tok { kind: TokenType::Plus, end: p + 1 }
    } else if c == 59 {
        Scan::Tok { kind: TokenType::Semicolon, end: p + 1 }
    } else if c == 47 {
        Scan::Tok { kind: TokenType::Slash, end: p + 1 }
    } else if c == 42 {
        Scan::Tok { kind: TokenType::Star, end: p + 1 }
    } else if c == 33 {
        if has_next && n == 61 {
            Scan::Tok { kind: TokenType::BantEqual, end: p + 2 }
        } else {
            Scan::Tok { kind: TokenType::Bang, end: p + 1 }
        }
    } else if c == 61 {
        if has_next && n == 61 {
            Scan::Tok { kind: TokenType::EqualEqual, end: p + 2 }
        } else {
            Scan::Tok { kind: TokenType::Equal, end: p + 1 }
        }
    } else if c == 62 {
        if has_next && n == 61 {
            Scan::Tok { kind: TokenType::GreaterEqual, end: p + 2 }
        } else {
            Scan::Tok { kind: TokenType::Greater, end: p + 1 }
        }
    } else if c == 60 {
        if has_next && n == 61 {
            Scan::Tok { kind: TokenType::LessEqual, end: p + 2 }
        } else {
            Scan::Tok { kind: TokenType::Less, end: p + 1 }
        }
    } else if (65 <= c && c <= 90) || (97 <= c && c <= 122) || c == 95 {
        let e = run_end(s, p + 1, ByteClass::Word);
        Scan::Tok { kind: word_kind(s, p, e), end: e }
    } else if 48 <= c && c <= 57 {
        let e = run_end(s, p, ByteClass::Digit);
        if len - e > 1 && s[e] == 46 && 48 <= s[e + 1] && s[e + 1] <= 57 {
            Scan::Tok { kind: TokenType::Number, end: run_end(s, e + 1, ByteClass::Digit) }
        } else {
            Scan::Tok { kind: TokenType::Number, end: e }
        }
    } else if c == 34 {
        let q = run_end(s, p + 1, ByteClass::NotQuote);
        if q < len {
            Scan::Tok { kind: TokenType::String, end: q + 1 }
        } else {
            Scan::Bad { end: len }
        }
    } else {
        let w: usize = if c < 0x80 {
            1
        } else if c < 0xe0 {
            2
        } else if c < 0xf0 {
            3
        } else {
            4
        };
        Scan::Bad {
            end: if w <= len - p {
                p + w
            } else {
                len
            },
        }
    }
}

/// The number of newline bytes among the first `end` bytes of `s`.
fn count_newlines(s: &[u8], end: usize) -> (r: usize)
    requires
        end <= s@.len(),
    ensures
        r == newline_count(s@, end as int),
        r <= end,
{
    let mut k: usize = 0;
    let mut count: usize = 0;
    while k < end
        invariant
            0 <= k <= end <= s@.len(),
            count == newline_count(s@, k as int),
            count <= k,
        decreases end - k,
    {
        if s[k] == 10 {
            count = count + 1;
        }
        k = k + 1;
    }
    count
}

// ---------------------------------------------------------------------------
// The tokenizer
// ---------------------------------------------------------------------------

/// A tokenizer over a source text: the next position to read and the count of lone newlines
/// passed so far.
pub struct Lexer<'source> {
    pub source: &'source str,
    pub bytes: &'source [u8],
    pub pos: usize,
    pub extras: usize,
}

impl<'source> Lexer<'source> {
    /// The bytes are those of the source, and the position lies within them.
    pub open spec fn wf(&self) -> bool {
        &&& self.bytes@ == self.source.spec_bytes()
        &&& self.extras <= self.pos <= self.bytes@.len()
        &&& vstd::utf8::is_char_boundary(self.bytes@, self.pos as int)
    }

    /// A tokenizer at the start of `source`.
    pub fn new(source: &'source str) -> (r: Self)
        ensures
            r.wf(),
            r.source == source,
            r.pos == 0,
            r.extras == 0,
    {
        proof {
            vstd::utf8::encode_utf8_valid_utf8(source@);
        }
        Lexer { source, bytes: source.as_bytes(), pos: 0, extras: 0 }
    }

    /// The next token, or the error for text that begins none; `None` at the end.
    pub fn next_token(&mut self) -> (r: Option<Result<Token, LexerError>>)
        requires
            old(self).wf(),
        ensures
            final(self).wf(),
            final(self).source == old(self).source,
            final(self).bytes == old(self).bytes,
            (r, final(self).pos as int, final(self).extras as int) == spec_next(
                old(self).bytes@,
                old(self).pos as int,
                old(self).extras as int,
            ),
            old(self).pos <= final(self).pos,
            r is Some ==> old(self).pos < final(self).pos,
            r is None ==> final(self).pos == final(self).bytes@.len(),
            r matches Some(Ok(t)) ==> old(self).pos <= t.start < t.end,
            r matches Some(Ok(t)) ==> is_char_range(final(self).source, t.start, t.end) && t.end
                == final(self).pos && t.token_type != TokenType::Error && t.token_type
                != TokenType::Newline,
            r matches Some(Ok(t)) ==> (t.token_type == TokenType::String ==> t.start + 2 <= t.end
                && is_char_range(final(self).source, (t.start + 1) as usize, (t.end - 1) as usize)),
    {
        let len = self.bytes.len();
        proof {
            vstd::utf8::encode_utf8_valid_utf8(self.source@);
        }
        loop
            invariant
                self.wf(),
                vstd::utf8::valid_utf8(self.bytes@),
                old(self).pos <= self.pos,
                self.source == old(self).source,
                self.bytes == old(self).bytes,
                len == self.bytes@.len(),
                spec_next(self.bytes@, self.pos as int, self.extras as int) == spec_next(
                    old(self).bytes@,
                    old(self).pos as int,
                    old(self).extras as int,
                ),
            decreases len - self.pos,
        {
            if self.pos >= len {
                return None;
            }
            let p = self.pos;
            proof {
                lemma_scan_advances(self.bytes@, p as int);
                lemma_scan_boundary(self.bytes@, p as int);
                lemma_string_inner_boundary(self.bytes@, p as int);
            }
            match scan(self.bytes, p) {
                Scan::Skip { end, newline } => {
                    self.pos = end;
                    if newline {
                        self.extras = self.extras + 1;
                    }
                },
                Scan::Tok { kind, end } => {
                    self.pos = end;
                    return Some(Ok(Token { token_type: kind, start: p, end, line: self.extras }));
                },
                Scan::Bad { end } => {
                    let line = count_newlines(self.bytes, p) + 1;
                    let err = if self.bytes[p] == 34 {
                        LexerError::UnterminatedString { line }
                    } else {
                        LexerError::UnexpectedCharacter { line }
                    };
                    self.pos = end;
                    return Some(Err(err));
                },
            }
        }
    }
}

/// Whatever is found at a position ends after it, within the text.
proof fn lemma_scan_advances(s: Seq<u8>, p: int)
    requires
        0 <= p < s.len(),
        s.len() <= usize::MAX,
    ensures
        match spec_scan(s, p) {
            Scan::Skip { end, .. } => p < end <= s.len(),
            Scan::Tok { end, .. } => p < end <= s.len(),
            Scan::Bad { end } => p < end <= s.len(),
        },
{
    lemma_run_len_bound(s, p, ByteClass::Space);
    lemma_run_len_bound(s, p, ByteClass::Digit);
    if p + 1 <= s.len() {
        lemma_run_len_bound(s, p + 1, ByteClass::Word);
        lemma_run_len_bound(s, p + 1, ByteClass::NotQuote);
    }
    if p + 2 <= s.len() {
        lemma_run_len_bound(s, p + 2, ByteClass::NotNewline);
    }
    let e = p + run_len(s, p, ByteClass::Digit);
    if e + 1 <= s.len() {
        lemma_run_len_bound(s, e + 1, ByteClass::Digit);
    }
}

/// In valid UTF-8, the character that starts at a boundary is `char_width` of its first byte
/// long, and another boundary follows it.
proof fn lemma_width_step(s: Seq<u8>, p: int)
    requires
        vstd::utf8::valid_utf8(s),
        0 <= p < s.len(),
        vstd::utf8::is_char_boundary(s, p),
    ensures
        p + char_width(s[p]) <= s.len(),
        vstd::utf8::is_char_boundary(s, p + char_width(s[p])),
    decreases s.len(),
{
    let l = vstd::utf8::length_of_first_scalar(s);
    let rest = vstd::utf8::pop_first_scalar(s);
    assert(vstd::utf8::valid_first_scalar(s));
    assert(1 <= l <= s.len());
    assert(rest.len() == s.len() - l);
    if p == 0 {
        assert(l == char_width(s[0]));
        assert(vstd::utf8::is_char_boundary(rest, 0));
    } else {
        assert(vstd::utf8::is_char_boundary(rest, p - l));
        if p - l < 0 {
            assert(false);
        }
        if p - l >= rest.len() {
            assert(p - l == rest.len());
            assert(false);
        }
        assert(rest[p - l] == s[p]);
        lemma_width_step(rest, p - l);
    }
}

/// In valid UTF-8, the position after an ASCII byte is a character boundary.
proof fn lemma_after_ascii(s: Seq<u8>, i: int)
    requires
        vstd::utf8::valid_utf8(s),
        0 < i <= s.len(),
        s[i - 1] < 0x80,
    ensures
        vstd::utf8::is_char_boundary(s, i),
{
    vstd::utf8::is_char_boundary_iff_not_is_continuation_byte(s, i - 1);
    lemma_width_step(s, i - 1);
}

/// The last byte of a nonempty run belongs to the run's class.
proof fn lemma_run_last(s: Seq<u8>, i: int, c: ByteClass)
    requires
        0 <= i,
        run_len(s, i, c) > 0,
    ensures
        i + run_len(s, i, c) <= s.len(),
        in_class(c, s[i + run_len(s, i, c) - 1]),
    decreases s.len() - i,
{
    if run_len(s, i + 1, c) > 0 {
        lemma_run_last(s, i + 1, c);
    }
}

/// A run stops at the end of the text or at a byte outside its class.
proof fn lemma_run_stop(s: Seq<u8>, i: int, c: ByteClass)
    requires
        0 <= i <= s.len(),
    ensures
        i + run_len(s, i, c) < s.len() ==> !in_class(c, s[i + run_len(s, i, c)]),
    decreases s.len() - i,
{
    if i < s.len() && in_class(c, s[i]) {
        lemma_run_stop(s, i + 1, c);
    }
}

/// What is found at a character boundary ends at a character boundary.
proof fn lemma_scan_boundary(s: Seq<u8>, p: int)
    requires
        vstd::utf8::valid_utf8(s),
        0 <= p < s.len(),
        s.len() <= usize::MAX,
        vstd::utf8::is_char_boundary(s, p),
    ensures
        match spec_scan(s, p) {
            Scan::Skip { end, .. } => vstd::utf8::is_char_boundary(s, end as int),
            Scan::Tok { end, .. } => vstd::utf8::is_char_boundary(s, end as int),
            Scan::Bad { end } => vstd::utf8::is_char_boundary(s, end as int),
        },
{
    lemma_scan_advances(s, p);
    vstd::utf8::is_char_boundary_start_end_of_seq(s);
    let c = s[p];
    match spec_scan(s, p) {
        Scan::Bad { end } => {
            if c == 34 {
            } else {
                lemma_width_step(s, p);
            }
        },
        Scan::Skip { end, newline } => {
            if (end as int) < s.len() {
                if is_space(c) && !newline {
                    lemma_run_last(s, p, ByteClass::Space);
                } else if c == 47 {
                    let e = p + 2 + run_len(s, p + 2, ByteClass::NotNewline);
                    lemma_run_len_bound(s, p + 2, ByteClass::NotNewline);
                    lemma_run_stop(s, p + 2, ByteClass::NotNewline);
                    if e < s.len() {
                        assert(!in_class(ByteClass::NotNewline, s[e]));
                    }
                }
                lemma_after_ascii(s, end as int);
            }
        },
        Scan::Tok { kind, end } => {
            {
                if is_alpha(c) {
                    if run_len(s, p + 1, ByteClass::Word) > 0 {
                        lemma_run_last(s, p + 1, ByteClass::Word);
                    }
                } else if is_digit(c) {
                    let e = p + run_len(s, p, ByteClass::Digit);
                    lemma_run_last(s, p, ByteClass::Digit);
                    if e + 1 < s.len() && s[e] == 46 && is_digit(s[e + 1]) {
                        lemma_run_last(s, e + 1, ByteClass::Digit);
                    }
                } else if c == 34 {
                    let q = p + 1 + run_len(s, p + 1, ByteClass::NotQuote);
                    lemma_run_len_bound(s, p + 1, ByteClass::NotQuote);
                    lemma_run_stop(s, p + 1, ByteClass::NotQuote);
                    assert(!in_class(ByteClass::NotQuote, s[q]));
                }
                lemma_after_ascii(s, end as int);
            }
        },
    }
}

/// A string token's text without its quotes starts and ends at character boundaries.
proof fn lemma_string_inner_boundary(s: Seq<u8>, p: int)
    requires
        vstd::utf8::valid_utf8(s),
        0 <= p < s.len(),
        s.len() <= usize::MAX,
    ensures
        spec_scan(s, p) matches Scan::Tok { kind, end } ==> (kind == TokenType::String ==> p + 2
            <= end && vstd::utf8::is_char_boundary(s, p + 1) && vstd::utf8::is_char_boundary(
            s,
            end - 1,
        ) && s[p] == 34),
{
    lemma_scan_advances(s, p);
    if let Scan::Tok { kind, end } = spec_scan(s, p) {
        if kind == TokenType::String {
            let c = s[p];
            assert(c == 34);
            let q = p + 1 + run_len(s, p + 1, ByteClass::NotQuote);
            lemma_run_len_bound(s, p + 1, ByteClass::NotQuote);
            lemma_run_stop(s, p + 1, ByteClass::NotQuote);
            assert(s[q] == 34);
            lemma_after_ascii(s, p + 1);
            vstd::utf8::is_char_boundary_iff_not_is_continuation_byte(s, q);
        }
    }
}


/// Each operator and punctuation mark scans as a token of its own kind, spanning exactly its
/// spelling: `!=` as `BantEqual`, `==` as `EqualEqual`, `<=` as `LessEqual` and `>=` as
/// `GreaterEqual`; `!`, `=`, `<` and `>` not followed by `=` as `Bang`, `Equal`, `Less` and
/// `Greater`; `(`, `)`, `{`, `}`, `,`, `.`, `-`, `+`, `;` and `*` as `LeftParen`, `RightParen`,
/// `LeftBrace`, `RightBrace`, `Comma`, `Dot`, `Minus`, `Plus`, `Semicolon` and `Star`; and `/`
/// not followed by `/` (which begins a comment) as `Slash`. The bytes are those of the
/// characters, so `!=` and `==` scan to different kinds.
pub proof fn lemma_operators_scan_to_their_kinds(s: Seq<u8>, p: int)
    requires
        0 <= p < s.len(),
        s.len() <= usize::MAX,
    ensures
        s[p] == 33 && p + 1 < s.len() && s[p + 1] == 61 ==> (spec_scan(s, p) matches Scan::Tok {
            kind,
            end,
        } && kind == TokenType::BantEqual && end == p + 2),
        s[p] == 61 && p + 1 < s.len() && s[p + 1] == 61 ==> (spec_scan(s, p) matches Scan::Tok {
            kind,
            end,
        } && kind == TokenType::EqualEqual && end == p + 2),
        s[p] == 60 && p + 1 < s.len() && s[p + 1] == 61 ==> (spec_scan(s, p) matches Scan::Tok {
            kind,
            end,
        } && kind == TokenType::LessEqual && end == p + 2),
        s[p] == 62 && p + 1 < s.len() && s[p + 1] == 61 ==> (spec_scan(s, p) matches Scan::Tok {
            kind,
            end,
        } && kind == TokenType::GreaterEqual && end == p + 2),
        s[p] == 33 && !(p + 1 < s.len() && s[p + 1] == 61) ==> (spec_scan(s, p) matches Scan::Tok { kind, end } && kind
            == TokenType::Bang && end == p + 1),
        s[p] == 61 && !(p + 1 < s.len() && s[p + 1] == 61) ==> (spec_scan(s, p) matches Scan::Tok { kind, end } && kind
            == TokenType::Equal && end == p + 1),
        s[p] == 60 && !(p + 1 < s.len() && s[p + 1] == 61) ==> (spec_scan(s, p) matches Scan::Tok { kind, end } && kind
            == TokenType::Less && end == p + 1),
        s[p] == 62 && !(p + 1 < s.len() && s[p + 1] == 61) ==> (spec_scan(s, p) matches Scan::Tok { kind, end } && kind
            == TokenType::Greater && end == p + 1),
        s[p] == 40 ==> (spec_scan(s, p) matches Scan::Tok { kind, end } && kind
            == TokenType::LeftParen && end == p + 1),
        s[p] == 41 ==> (spec_scan(s, p) matches Scan::Tok { kind, end } && kind
            == TokenType::RightParen && end == p + 1),
        s[p] == 123 ==> (spec_scan(s, p) matches Scan::Tok { kind, end } && kind
            == TokenType::LeftBrace && end == p + 1),
        s[p] == 125 ==> (spec_scan(s, p) matches Scan::Tok { kind, end } && kind
            == TokenType::RightBrace && end == p + 1),
        s[p] == 44 ==> (spec_scan(s, p) matches Scan::Tok { kind, end } && kind
            == TokenType::Comma && end == p + 1),
        s[p] == 46 ==> (spec_scan(s, p) matches Scan::Tok { kind, end } && kind
            == TokenType::Dot && end == p + 1),
        s[p] == 45 ==> (spec_scan(s, p) matches Scan::Tok { kind, end } && kind
            == TokenType::Minus && end == p + 1),
        s[p] == 43 ==> (spec_scan(s, p) matches Scan::Tok { kind, end } && kind
            == TokenType::Plus && end == p + 1),
        s[p] == 59 ==> (spec_scan(s, p) matches Scan::Tok { kind, end } && kind
            == TokenType::Semicolon && end == p + 1),
        s[p] == 42 ==> (spec_scan(s, p) matches Scan::Tok { kind, end } && kind
            == TokenType::Star && end == p + 1),
        s[p] == 47 && !(p + 1 < s.len() && s[p + 1] == 47) ==> (spec_scan(s, p) matches Scan::Tok { kind, end } && kind
            == TokenType::Slash && end == p + 1),
{
}


/// The run of bytes of class `c` from `i` ends at `e` when every byte from `i` up to `e`
/// belongs to `c` and the byte at `e`, if there is one, does not.
proof fn lemma_run_len_exact(s: Seq<u8>, i: int, e: int, c: ByteClass)
    requires
        0 <= i <= e <= s.len(),
        forall|j: int| i <= j < e ==> in_class(c, #[trigger] s[j]),
        e < s.len() ==> !in_class(c, s[e]),
    ensures
        run_len(s, i, c) == e - i,
    decreases e - i,
{
    if i < e {
        lemma_run_len_exact(s, i + 1, e, c);
    }
}

/// A keyword spelled out at `p`, and not followed by a letter, a digit or `_`, scans as a
/// token of that keyword's kind spanning exactly its spelling: `and`, `class`, `else`,
/// `false`, `for`, `fun`, `if`, `nil`, `or`, `print`, `return`, `super`, `this`, `true`,
/// `var` and `while` (`w` holds the bytes of the word, `k` the kind).
pub proof fn lemma_keywords_scan_to_their_kinds(s: Seq<u8>, p: int, w: Seq<u8>, k: TokenType)
    requires
        0 <= p,
        p + w.len() <= s.len(),
        s.len() <= usize::MAX,
        s.subrange(p, p + w.len()) == w,
        p + w.len() < s.len() ==> !(is_alpha(s[p + w.len()]) || is_digit(s[p + w.len()])),
        (w == seq![97u8, 110, 100] && k == TokenType::And)
            || (w == seq![99u8, 108, 97, 115, 115] && k == TokenType::Class)
            || (w == seq![101u8, 108, 115, 101] && k == TokenType::Else)
            || (w == seq![102u8, 97, 108, 115, 101] && k == TokenType::False)
            || (w == seq![102u8, 111, 114] && k == TokenType::For)
            || (w == seq![102u8, 117, 110] && k == TokenType::Fun)
            || (w == seq![105u8, 102] && k == TokenType::If)
            || (w == seq![110u8, 105, 108] && k == TokenType::Nil)
            || (w == seq![111u8, 114] && k == TokenType::Or)
            || (w == seq![112u8, 114, 105, 110, 116] && k == TokenType::Print)
            || (w == seq![114u8, 101, 116, 117, 114, 110] && k == TokenType::Return)
            || (w == seq![115u8, 117, 112, 101, 114] && k == TokenType::Super)
            || (w == seq![116u8, 104, 105, 115] && k == TokenType::This)
            || (w == seq![116u8, 114, 117, 101] && k == TokenType::True)
            || (w == seq![118u8, 97, 114] && k == TokenType::Var)
            || (w == seq![119u8, 104, 105, 108, 101] && k == TokenType::While),
    ensures
        spec_scan(s, p) matches Scan::Tok { kind, end } && kind == k && end == p + w.len(),
{
    let e = p + w.len();
    assert(forall|j: int| 0 <= j < w.len() ==> is_alpha(#[trigger] w[j]));
    assert forall|j: int| p + 1 <= j < e implies in_class(ByteClass::Word, #[trigger] s[j]) by {
        assert(s[j] == w[j - p]);
    }
    assert(s[p] == w[0]);
    lemma_run_len_exact(s, p + 1, e, ByteClass::Word);
    assert(s.subrange(p, e) == w);
}

/// A word that is no keyword scans as an identifier: at a letter or `_`, the token spans the
/// longest run of letters, digits and `_`, and is an identifier unless the run spells a
/// keyword.
pub proof fn lemma_words_scan_to_identifiers(s: Seq<u8>, p: int, e: int)
    requires
        0 <= p < e <= s.len(),
        s.len() <= usize::MAX,
        is_alpha(s[p]),
        forall|j: int| p <= j < e ==> is_alpha(#[trigger] s[j]) || is_digit(s[j]),
        e < s.len() ==> !(is_alpha(s[e]) || is_digit(s[e])),
        keyword(s.subrange(p, e)) is None,
    ensures
        spec_scan(s, p) matches Scan::Tok { kind, end } && kind == TokenType::Identifier && end == e,
{
    lemma_run_len_exact(s, p + 1, e, ByteClass::Word);
}


/// A whole number scans as one token: at a digit, where the longest run of digits is not
/// followed by a `.` and a digit, the token spans that run and its kind is `Number`.
pub proof fn lemma_whole_numbers_scan_whole(s: Seq<u8>, p: int, e: int)
    requires
        0 <= p < e <= s.len(),
        s.len() <= usize::MAX,
        forall|j: int| p <= j < e ==> is_digit(#[trigger] s[j]),
        e < s.len() ==> !is_digit(s[e]),
        !(e + 1 < s.len() && s[e] == 46 && is_digit(s[e + 1])),
    ensures
        spec_scan(s, p) matches Scan::Tok { kind, end } && kind == TokenType::Number && end == e,
{
    lemma_run_len_exact(s, p, e, ByteClass::Digit);
}

/// A number with a fraction scans as one token: at a digit, where the longest run of digits
/// ends at a `.` followed by a digit, the token spans the run, the `.` and the longest run of
/// digits after it, and its kind is `Number`.
pub proof fn lemma_fractions_scan_whole(s: Seq<u8>, p: int, e: int, f: int)
    requires
        0 <= p < e,
        e + 1 < f <= s.len(),
        s.len() <= usize::MAX,
        forall|j: int| p <= j < e ==> is_digit(#[trigger] s[j]),
        s[e] == 46,
        forall|j: int| e < j < f ==> is_digit(#[trigger] s[j]),
        f < s.len() ==> !is_digit(s[f]),
    ensures
        spec_scan(s, p) matches Scan::Tok { kind, end } && kind == TokenType::Number && end == f,
{
    lemma_run_len_exact(s, p, e, ByteClass::Digit);
    assert(is_digit(s[e + 1]));
    lemma_run_len_exact(s, e + 1, f, ByteClass::Digit);
}

/// A string scans as one token from its opening quote through the next quote; its kind is
/// `String`.
pub proof fn lemma_strings_scan_to_the_next_quote(s: Seq<u8>, p: int, q: int)
    requires
        0 <= p < q < s.len(),
        s.len() <= usize::MAX,
        s[p] == 34,
        s[q] == 34,
        forall|j: int| p < j < q ==> #[trigger] s[j] != 34,
    ensures
        spec_scan(s, p) matches Scan::Tok { kind, end } && kind == TokenType::String && end == q + 1,
{
    lemma_run_len_exact(s, p + 1, q, ByteClass::NotQuote);
}

} // verus!
