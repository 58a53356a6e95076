//! Tokens and the tokenizer.
//!
//! The tokenizer works on the bytes of the input. Every token begins and ends
//! with an ASCII byte, so its text can be borrowed from the input without a
//! copy and without leaving a character cut in two.

use crate::text::{is_ascii_byte, slice_text};
use std::ops::Range;
use vstd::prelude::*;
use vstd::string::*;
use vstd::utf8::*;

verus! {

/// The lexical categories.
#[derive(Debug, Clone, Copy, PartialEq, Eq, Structural)]
pub enum TokenKind {
    Select,
    From,
    Where,
    With,
    Recursive,
    As,
    Union,
    All,
    And,
    Or,
    Insert,
    Update,
    Delete,
    Identifier,
    String,
    Number,
    Float,
    Plus,
    Minus,
    Star,
    Slash,
    Equal,
    NotEqual,
    Less,
    Greater,
    LessEqual,
    GreaterEqual,
    LeftParen,
    RightParen,
    Comma,
    Semicolon,
    Eof,
}

/// A token: its text, borrowed from the input, its kind, and the byte range
/// of the input that it covers.
#[derive(Debug, PartialEq)]
pub struct Token<'a> {
    pub text: &'a str,
    pub kind: TokenKind,
    pub span: Range<usize>,
}

impl<'a> Token<'a> {
    /// A token with the given text, kind and byte range.
    pub fn new(text: &'a str, kind: TokenKind, span: Range<usize>) -> (token: Self)
        ensures
            token.text == text,
            token.kind == kind,
            token.span == span,
    {
        Token { text, kind, span }
    }
}

impl<'a> Clone for Token<'a> {
    fn clone(&self) -> (copy: Self)
        ensures
            copy == *self,
    {
        Token {
            text: self.text,
            kind: self.kind,
            span: Range { start: self.span.start, end: self.span.end },
        }
    }
}

pub const TAB: u8 = 0x09;

pub const LINE_FEED: u8 = 0x0a;

pub const FORM_FEED: u8 = 0x0c;

pub const CARRIAGE_RETURN: u8 = 0x0d;

pub const SPACE: u8 = 0x20;

pub const BANG: u8 = 0x21;

pub const QUOTE: u8 = 0x27;

pub const LEFT_PAREN: u8 = 0x28;

pub const RIGHT_PAREN: u8 = 0x29;

pub const ASTERISK: u8 = 0x2a;

pub const PLUS_SIGN: u8 = 0x2b;

pub const COMMA_SIGN: u8 = 0x2c;

pub const HYPHEN: u8 = 0x2d;

pub const DOT: u8 = 0x2e;

pub const SOLIDUS: u8 = 0x2f;

pub const SEMICOLON_SIGN: u8 = 0x3b;

pub const LESS_SIGN: u8 = 0x3c;

pub const EQUAL_SIGN: u8 = 0x3d;

pub const GREATER_SIGN: u8 = 0x3e;

pub const BACKSLASH: u8 = 0x5c;

pub const UNDERSCORE: u8 = 0x5f;

/// True for a blank, a tab and the three line-break characters.
pub open spec fn is_space(b: u8) -> bool {
    b == SPACE || b == TAB || b == CARRIAGE_RETURN || b == LINE_FEED || b == FORM_FEED
}

/// True for a decimal digit.
pub open spec fn is_digit(b: u8) -> bool {
    0x30 <= b <= 0x39
}

/// True for a small ASCII letter.
pub open spec fn is_lower(b: u8) -> bool {
    0x61 <= b <= 0x7a
}

/// True for a capital ASCII letter.
pub open spec fn is_upper(b: u8) -> bool {
    0x41 <= b <= 0x5a
}

/// True for a byte with which a word may begin: a letter or the
/// underscore.
pub open spec fn is_word_start(b: u8) -> bool {
    is_lower(b) || is_upper(b) || b == UNDERSCORE
}

/// True for a byte of which a word may be made: a letter, a digit or the
/// underscore.
pub open spec fn is_word_byte(b: u8) -> bool {
    is_word_start(b) || is_digit(b)
}

/// The upper-case form of an ASCII letter; any other byte is left alone.
pub open spec fn upper_byte(b: u8) -> u8 {
    if is_lower(b) {
        (b - 0x20) as u8
    } else {
        b
    }
}

/// The sets of bytes that the tokenizer reads in runs.
#[derive(Debug, Clone, Copy, PartialEq, Eq, Structural)]
pub enum ByteClass {
    /// Blanks and line breaks.
    Space,
    /// Decimal digits.
    Digit,
    /// Letters, digits and the underscore.
    Word,
    /// Everything up to the end of the line.
    Line,
}

/// True if `b` belongs to `class`.
pub open spec fn in_class(class: ByteClass, b: u8) -> bool {
    match class {
        ByteClass::Space => is_space(b),
        ByteClass::Digit => is_digit(b),
        ByteClass::Word => is_word_byte(b),
        ByteClass::Line => b != LINE_FEED,
    }
}

/// Where the longest run of bytes of one class that begins at `from` ends.
pub open spec fn run_end(src: Seq<u8>, from: int, class: ByteClass) -> int
    decreases src.len() - from,
{
    if 0 <= from < src.len() && in_class(class, src[from]) {
        run_end(src, from + 1, class)
    } else {
        from
    }
}

/// What the tokenizer finds at one place: a token of some kind, or, where
/// `kind` is `None`, something to pass over; and where it ends.
pub struct Scan {
    pub kind: Option<TokenKind>,
    pub end: int,
}

/// A string literal whose opening quote has been read and whose body
/// continues at `from`. It ends right behind the first quote that no
/// backslash escapes; a backslash takes the next character with it, which
/// must not be a line feed. A literal that is not closed is passed over up
/// to the place where it breaks: the end of the input, or the line feed
/// behind a backslash.
pub open spec fn scan_string(src: Seq<u8>, from: int) -> Scan
    decreases src.len() - from,
{
    if from < 0 || from >= src.len() {
        Scan { kind: None, end: from }
    } else if src[from] == QUOTE {
        Scan { kind: Some(TokenKind::String), end: from + 1 }
    } else if src[from] == BACKSLASH {
        if from + 1 < src.len() && src[from + 1] != LINE_FEED {
            scan_string(src, from + 2)
        } else {
            Scan { kind: None, end: from + 1 }
        }
    } else {
        scan_string(src, from + 1)
    }
}

/// True if `word` spells `spelling`, which is in upper case, in any mix of
/// cases.
pub open spec fn spells(word: Seq<u8>, spelling: Seq<char>) -> bool {
    &&& word.len() == spelling.len()
    &&& forall|i: int| 0 <= i < word.len() ==> upper_byte(#[trigger] word[i]) == spelling[i] as u8
}

/// The kind of a word: one of the keywords, or an identifier.
pub open spec fn word_kind(word: Seq<u8>) -> TokenKind {
    if spells(word, "SELECT"@) {
        TokenKind::Select
    } else if spells(word, "FROM"@) {
        TokenKind::From
    } else if spells(word, "WHERE"@) {
        TokenKind::Where
    } else if spells(word, "WITH"@) {
        TokenKind::With
    } else if spells(word, "RECURSIVE"@) {
        TokenKind::Recursive
    } else if spells(word, "AS"@) {
        TokenKind::As
    } else if spells(word, "UNION"@) {
        TokenKind::Union
    } else if spells(word, "ALL"@) {
        TokenKind::All
    } else if spells(word, "AND"@) {
        TokenKind::And
    } else if spells(word, "OR"@) {
        TokenKind::Or
    } else if spells(word, "INSERT"@) {
        TokenKind::Insert
    } else if spells(word, "UPDATE"@) {
        TokenKind::Update
    } else if spells(word, "DELETE"@) {
        TokenKind::Delete
    } else {
        TokenKind::Identifier
    }
}

/// A number whose digits begin at `digits`; a minus sign may stand before
/// them. With a dot and more digits behind it, it is a float.
pub open spec fn scan_number(src: Seq<u8>, digits: int) -> Scan {
    let whole = run_end(src, digits, ByteClass::Digit);
    if whole + 1 < src.len() && src[whole] == DOT && is_digit(src[whole + 1]) {
        Scan { kind: Some(TokenKind::Float), end: run_end(src, whole + 1, ByteClass::Digit) }
    } else {
        Scan { kind: Some(TokenKind::Number), end: whole }
    }
}

/// True if the byte behind `at` is there and is `b`.
pub open spec fn next_is(src: Seq<u8>, at: int, b: u8) -> bool {
    at + 1 < src.len() && src[at + 1] == b
}

/// What stands at `at`, a place inside `src`. The longest token that begins
/// there wins, and a keyword wins over an identifier. Blanks and comments
/// are passed over, and so are a string literal that is not closed and a
/// byte with which no token begins.
pub open spec fn scan(src: Seq<u8>, at: int) -> Scan {
    let b = src[at];
    if is_space(b) {
        Scan { kind: None, end: run_end(src, at, ByteClass::Space) }
    } else if is_word_start(b) {
        let end = run_end(src, at, ByteClass::Word);
        Scan { kind: Some(word_kind(src.subrange(at, end))), end }
    } else if is_digit(b) {
        scan_number(src, at)
    } else if b == HYPHEN {
        if next_is(src, at, HYPHEN) {
            Scan { kind: None, end: run_end(src, at + 2, ByteClass::Line) }
        } else if at + 1 < src.len() && is_digit(src[at + 1]) {
            scan_number(src, at + 1)
        } else {
            Scan { kind: Some(TokenKind::Minus), end: at + 1 }
        }
    } else if b == QUOTE {
        scan_string(src, at + 1)
    } else if b == BANG {
        if next_is(src, at, EQUAL_SIGN) {
            Scan { kind: Some(TokenKind::NotEqual), end: at + 2 }
        } else {
            Scan { kind: None, end: at + 1 }
        }
    } else if b == LESS_SIGN {
        if next_is(src, at, EQUAL_SIGN) {
            Scan { kind: Some(TokenKind::LessEqual), end: at + 2 }
        } else if next_is(src, at, GREATER_SIGN) {
            Scan { kind: Some(TokenKind::NotEqual), end: at + 2 }
        } else {
            Scan { kind: Some(TokenKind::Less), end: at + 1 }
        }
    } else if b == GREATER_SIGN {
        if next_is(src, at, EQUAL_SIGN) {
            Scan { kind: Some(TokenKind::GreaterEqual), end: at + 2 }
        } else {
            Scan { kind: Some(TokenKind::Greater), end: at + 1 }
        }
    } else {
        Scan { kind: sign_kind(b), end: at + 1 }
    }
}

/// The kind of the tokens that are one fixed byte long.
pub open spec fn sign_kind(b: u8) -> Option<TokenKind> {
    if b == PLUS_SIGN {
        Some(TokenKind::Plus)
    } else if b == ASTERISK {
        Some(TokenKind::Star)
    } else if b == SOLIDUS {
        Some(TokenKind::Slash)
    } else if b == EQUAL_SIGN {
        Some(TokenKind::Equal)
    } else if b == LEFT_PAREN {
        Some(TokenKind::LeftParen)
    } else if b == RIGHT_PAREN {
        Some(TokenKind::RightParen)
    } else if b == COMMA_SIGN {
        Some(TokenKind::Comma)
    } else if b == SEMICOLON_SIGN {
        Some(TokenKind::Semicolon)
    } else {
        None
    }
}

/// A token as the tokenizer's rules give it: a kind and a byte range.
pub struct Lexeme {
    pub kind: TokenKind,
    pub start: int,
    pub end: int,
}

/// The tokens of `src` from `at` on, in order.
pub open spec fn lexemes(src: Seq<u8>, at: int) -> Seq<Lexeme>
    decreases src.len() - at,
{
    if at < 0 || at >= src.len() {
        seq![]
    } else {
        let found = scan(src, at);
        if found.end <= at || found.end > src.len() {
            seq![]
        } else {
            match found.kind {
                Some(kind) => seq![Lexeme { kind, start: at, end: found.end }] + lexemes(
                    src,
                    found.end,
                ),
                None => lexemes(src, found.end),
            }
        }
    }
}

/// What a token says: its kind, its text, and the byte range of the input
/// that it covers.
pub struct TokenView {
    pub kind: TokenKind,
    pub text: Seq<char>,
    pub start: nat,
    pub end: nat,
}

impl<'a> View for Token<'a> {
    type V = TokenView;

    open spec fn view(&self) -> TokenView {
        TokenView {
            kind: self.kind,
            text: self.text@,
            start: self.span.start as nat,
            end: self.span.end as nat,
        }
    }
}

/// What each of a list of tokens says.
pub open spec fn views_of(tokens: Seq<Token>) -> Seq<TokenView> {
    Seq::new(tokens.len(), |i: int| tokens[i]@)
}

/// The token for a lexeme of `src`: its text is what the bytes of its range
/// encode.
pub open spec fn token_at(src: Seq<u8>, lexeme: Lexeme) -> TokenView {
    TokenView {
        kind: lexeme.kind,
        text: decode_utf8(src.subrange(lexeme.start, lexeme.end)),
        start: lexeme.start as nat,
        end: lexeme.end as nat,
    }
}

/// The token that marks the end of an input of `len` bytes.
pub open spec fn end_mark(len: nat) -> TokenView {
    TokenView { kind: TokenKind::Eof, text: Seq::empty(), start: len, end: len }
}

/// What tokenizing `src` gives: its lexemes in order, then the end mark.
pub open spec fn tokens_of(src: Seq<u8>) -> Seq<TokenView> {
    let found = lexemes(src, 0);
    Seq::new(
        found.len() + 1,
        |i: int|
            if 0 <= i < found.len() {
                token_at(src, found[i])
            } else {
                end_mark(src.len())
            },
    )
}

/// True if the text of `token` is the bytes of `src` in the range of the
/// token.
pub open spec fn is_cut_from(token: Token, src: Seq<u8>) -> bool {
    &&& token.span.start <= token.span.end <= src.len()
    &&& token.text.spec_bytes() == src.subrange(token.span.start as int, token.span.end as int)
}

/// True if the text of a string token can lose its two quotes: it has a
/// first and a last byte to itself.
pub open spec fn is_quoted(text: Seq<u8>) -> bool {
    &&& text.len() >= 2
    &&& is_ascii_byte(text[0])
    &&& is_ascii_byte(text.last())
}

/// What the parser relies on in a token sequence: that it ends with the end
/// mark's kind, and that its string tokens are quoted.
pub open spec fn is_stream(tokens: Seq<TokenView>) -> bool {
    &&& tokens.len() > 0
    &&& tokens.last().kind == TokenKind::Eof
    &&& forall|i: int|
        0 <= i < tokens.len() && (#[trigger] tokens[i]).kind == TokenKind::String ==> is_quoted(
            encode_utf8(tokens[i].text),
        )
}

/// Says whether `b` belongs to `class`.
fn in_byte_class(class: ByteClass, b: u8) -> (r: bool)
    ensures
        r == in_class(class, b),
{
    match class {
        ByteClass::Space => b == SPACE || b == TAB || b == CARRIAGE_RETURN || b == LINE_FEED || b
            == FORM_FEED,
        ByteClass::Digit => 0x30 <= b && b <= 0x39,
        ByteClass::Word => (0x61 <= b && b <= 0x7a) || (0x41 <= b && b <= 0x5a) || b == UNDERSCORE
            || (0x30 <= b && b <= 0x39),
        ByteClass::Line => b != LINE_FEED,
    }
}

/// Reads the longest run of bytes of `class` that begins at `from`, and
/// gives its end.
pub(crate) fn read_run(bytes: &[u8], from: usize, class: ByteClass) -> (end: usize)
    requires
        from <= bytes@.len(),
    ensures
        end == run_end(bytes@, from as int, class),
        from <= end <= bytes@.len(),
        forall|i: int| from <= i < end ==> in_class(class, bytes@[i]),
        end < bytes@.len() ==> !in_class(class, bytes@[end as int]),
{
    let mut end: usize = from;
    while end < bytes.len() && in_byte_class(class, bytes[end])
        invariant
            from <= end <= bytes@.len(),
            run_end(bytes@, from as int, class) == run_end(bytes@, end as int, class),
            forall|i: int| from <= i < end ==> in_class(class, bytes@[i]),
        decreases bytes@.len() - end,
    {
        end = end + 1;
    }
    end
}

/// Reads a string literal behind its opening quote.
fn read_string(bytes: &[u8], from: usize) -> (found: (Option<TokenKind>, usize))
    requires
        0 < from <= bytes@.len(),
    ensures
        scan_string(bytes@, from as int) == (Scan { kind: found.0, end: found.1 as int }),
        from <= found.1 <= bytes@.len(),
        found.0 is Some ==> found.0 == Some(TokenKind::String) && from < found.1 && bytes@[found.1
            - 1] == QUOTE,
{
    let mut at: usize = from;
    while at < bytes.len()
        invariant
            from <= at <= bytes@.len(),
            scan_string(bytes@, from as int) == scan_string(bytes@, at as int),
        decreases bytes@.len() - at,
    {
        let b = bytes[at];
        if b == QUOTE {
            return (Some(TokenKind::String), at + 1);
        } else if b == BACKSLASH {
            if at + 1 < bytes.len() && bytes[at + 1] != LINE_FEED {
                at = at + 2;
            } else {
                return (None, at + 1);
            }
        } else {
            at = at + 1;
        }
    }
    (None, at)
}

/// The upper-case form of an ASCII letter; any other byte is left alone.
fn to_upper_byte(b: u8) -> (r: u8)
    ensures
        r == upper_byte(b),
{
    if 0x61 <= b && b <= 0x7a {
        b - 0x20
    } else {
        b
    }
}

/// Says whether the bytes from `start` to `end` spell `spelling` in any mix
/// of cases.
fn is_spelling(bytes: &[u8], start: usize, end: usize, spelling: &str) -> (r: bool)
    requires
        start <= end <= bytes@.len(),
        is_ascii_chars(spelling@),
    ensures
        r == spells(bytes@.subrange(start as int, end as int), spelling@),
{
    broadcast use is_ascii_spec_bytes;

    let letters = spelling.as_bytes();
    let ghost word = bytes@.subrange(start as int, end as int);
    assert(is_ascii(spelling));
    assert(letters@.len() == spelling@.len());
    if letters.len() != end - start {
        return false;
    }
    let mut i: usize = 0;
    while i < letters.len()
        invariant
            start <= end <= bytes@.len(),
            letters@.len() == end - start,
            letters@.len() == spelling@.len(),
            word == bytes@.subrange(start as int, end as int),
            forall|j: int| 0 <= j < letters@.len() ==> letters@[j] == spelling@[j] as u8,
            0 <= i <= letters@.len(),
            forall|j: int| 0 <= j < i ==> upper_byte(#[trigger] word[j]) == spelling@[j] as u8,
        decreases letters@.len() - i,
    {
        if to_upper_byte(bytes[start + i]) != letters[i] {
            assert(word[i as int] == bytes@[start + i]);
            return false;
        }
        assert(word[i as int] == bytes@[start + i]);
        i = i + 1;
    }
    true
}

/// The kind of the word in the bytes from `start` to `end`.
fn read_word_kind(bytes: &[u8], start: usize, end: usize) -> (kind: TokenKind)
    requires
        start <= end <= bytes@.len(),
    ensures
        kind == word_kind(bytes@.subrange(start as int, end as int)),
{
    proof {
        reveal_strlit("SELECT");
        reveal_strlit("FROM");
        reveal_strlit("WHERE");
        reveal_strlit("WITH");
        reveal_strlit("RECURSIVE");
        reveal_strlit("AS");
        reveal_strlit("UNION");
        reveal_strlit("ALL");
        reveal_strlit("AND");
        reveal_strlit("OR");
        reveal_strlit("INSERT");
        reveal_strlit("UPDATE");
        reveal_strlit("DELETE");
    }
    if is_spelling(bytes, start, end, "SELECT") {
        TokenKind::Select
    } else if is_spelling(bytes, start, end, "FROM") {
        TokenKind::From
    } else if is_spelling(bytes, start, end, "WHERE") {
        TokenKind::Where
    } else if is_spelling(bytes, start, end, "WITH") {
        TokenKind::With
    } else if is_spelling(bytes, start, end, "RECURSIVE") {
        TokenKind::Recursive
    } else if is_spelling(bytes, start, end, "AS") {
        TokenKind::As
    } else if is_spelling(bytes, start, end, "UNION") {
        TokenKind::Union
    } else if is_spelling(bytes, start, end, "ALL") {
        TokenKind::All
    } else if is_spelling(bytes, start, end, "AND") {
        TokenKind::And
    } else if is_spelling(bytes, start, end, "OR") {
        TokenKind::Or
    } else if is_spelling(bytes, start, end, "INSERT") {
        TokenKind::Insert
    } else if is_spelling(bytes, start, end, "UPDATE") {
        TokenKind::Update
    } else if is_spelling(bytes, start, end, "DELETE") {
        TokenKind::Delete
    } else {
        TokenKind::Identifier
    }
}

/// True if a token may cover the bytes of `src` from `start` to `end`: the
/// range is not empty, and its first and last byte are ASCII.
pub open spec fn is_token_range(src: Seq<u8>, start: int, end: int) -> bool {
    &&& 0 <= start < end <= src.len()
    &&& is_ascii_byte(src[start])
    &&& is_ascii_byte(src[end - 1])
}

/// Reads a number whose digits begin at `digits`.
fn read_number(bytes: &[u8], digits: usize) -> (found: (TokenKind, usize))
    requires
        digits < bytes@.len(),
        is_digit(bytes@[digits as int]),
    ensures
        scan_number(bytes@, digits as int) == (Scan { kind: Some(found.0), end: found.1 as int }),
        digits < found.1 <= bytes@.len(),
        is_digit(bytes@[found.1 - 1]),
{
    let whole = read_run(bytes, digits, ByteClass::Digit);
    if whole < bytes.len() && bytes.len() - whole > 1 && bytes[whole] == DOT && in_byte_class(
        ByteClass::Digit,
        bytes[whole + 1],
    ) {
        let end = read_run(bytes, whole + 1, ByteClass::Digit);
        (TokenKind::Float, end)
    } else {
        (TokenKind::Number, whole)
    }
}

/// The kind of the token that is the one byte `b`, if there is one.
fn read_sign(b: u8) -> (kind: Option<TokenKind>)
    ensures
        kind == sign_kind(b),
        kind is Some ==> is_ascii_byte(b),
{
    if b == PLUS_SIGN {
        Some(TokenKind::Plus)
    } else if b == ASTERISK {
        Some(TokenKind::Star)
    } else if b == SOLIDUS {
        Some(TokenKind::Slash)
    } else if b == EQUAL_SIGN {
        Some(TokenKind::Equal)
    } else if b == LEFT_PAREN {
        Some(TokenKind::LeftParen)
    } else if b == RIGHT_PAREN {
        Some(TokenKind::RightParen)
    } else if b == COMMA_SIGN {
        Some(TokenKind::Comma)
    } else if b == SEMICOLON_SIGN {
        Some(TokenKind::Semicolon)
    } else {
        None
    }
}

/// Reads what stands at `at`: a token of some kind or something to pass
/// over, and gives where it ends.
fn read_at(bytes: &[u8], at: usize) -> (found: (Option<TokenKind>, usize))
    requires
        at < bytes@.len(),
    ensures
        scan(bytes@, at as int) == (Scan { kind: found.0, end: found.1 as int }),
        at < found.1 <= bytes@.len(),
        found.0 is Some ==> is_token_range(bytes@, at as int, found.1 as int),
        found.0 == Some(TokenKind::String) ==> found.1 - at >= 2,
        found.0 != Some(TokenKind::Eof),
{
    let b = bytes[at];
    let more = at + 1 < bytes.len();
    if in_byte_class(ByteClass::Space, b) {
        (None, read_run(bytes, at, ByteClass::Space))
    } else if (0x61 <= b && b <= 0x7a) || (0x41 <= b && b <= 0x5a) || b == UNDERSCORE {
        let end = read_run(bytes, at, ByteClass::Word);
        (Some(read_word_kind(bytes, at, end)), end)
    } else if in_byte_class(ByteClass::Digit, b) {
        let (kind, end) = read_number(bytes, at);
        (Some(kind), end)
    } else if b == HYPHEN {
        if more && bytes[at + 1] == HYPHEN {
            (None, read_run(bytes, at + 2, ByteClass::Line))
        } else if more && in_byte_class(ByteClass::Digit, bytes[at + 1]) {
            let (kind, end) = read_number(bytes, at + 1);
            (Some(kind), end)
        } else {
            (Some(TokenKind::Minus), at + 1)
        }
    } else if b == QUOTE {
        read_string(bytes, at + 1)
    } else if b == BANG {
        if more && bytes[at + 1] == EQUAL_SIGN {
            (Some(TokenKind::NotEqual), at + 2)
        } else {
            (None, at + 1)
        }
    } else if b == LESS_SIGN {
        if more && bytes[at + 1] == EQUAL_SIGN {
            (Some(TokenKind::LessEqual), at + 2)
        } else if more && bytes[at + 1] == GREATER_SIGN {
            (Some(TokenKind::NotEqual), at + 2)
        } else {
            (Some(TokenKind::Less), at + 1)
        }
    } else if b == GREATER_SIGN {
        if more && bytes[at + 1] == EQUAL_SIGN {
            (Some(TokenKind::GreaterEqual), at + 2)
        } else {
            (Some(TokenKind::Greater), at + 1)
        }
    } else {
        (read_sign(b), at + 1)
    }
}

/// Splits `input` into tokens. Blanks, comments from `--` to the end of the
/// line, string literals that are not closed and bytes with which no token
/// begins are passed over. The last
/// token is always the end mark. The text of every token is cut from the
/// input at the range of the token.
pub fn tokenize(input: &str) -> (tokens: Vec<Token<'_>>)
    ensures
        views_of(tokens@) == tokens_of(input.spec_bytes()),
        forall|i: int|
            0 <= i < tokens@.len() ==> is_cut_from(#[trigger] tokens@[i], input.spec_bytes()),
        is_stream(views_of(tokens@)),
{
    let bytes = input.as_bytes();
    let len = bytes.len();
    let ghost src = input.spec_bytes();
    let ghost mut found: Seq<Lexeme> = seq![];
    let mut tokens: Vec<Token<'_>> = Vec::new();
    let mut at: usize = 0;
    while at < len
        invariant
            at <= len,
            len == src.len(),
            bytes@ == src,
            src == input.spec_bytes(),
            lexemes(src, 0) == found + lexemes(src, at as int),
            tokens@.len() == found.len(),
            forall|i: int|
                0 <= i < found.len() ==> (#[trigger] tokens@[i])@ == token_at(src, found[i]),
            forall|i: int| 0 <= i < tokens@.len() ==> is_cut_from(#[trigger] tokens@[i], src),
            forall|i: int|
                0 <= i < tokens@.len() && (#[trigger] tokens@[i]).kind == TokenKind::String
                    ==> is_quoted(tokens@[i].text.spec_bytes()),
        decreases len - at,
    {
        let (kind, end) = read_at(bytes, at);
        match kind {
            Some(kind) => {
                let text = slice_text(input, at, end);
                let token = Token::new(text, kind, Range { start: at, end });
                let ghost lexeme = Lexeme { kind, start: at as int, end: end as int };
                proof {
                    assert(found + (seq![lexeme] + lexemes(src, end as int)) =~= found.push(lexeme)
                        + lexemes(src, end as int));
                    found = found.push(lexeme);
                    encode_utf8_decode_utf8(text@);
                }
                tokens.push(token);
            },
            None => {},
        }
        at = end;
    }
    proof {
        reveal_strlit("");
        assert(found + lexemes(src, at as int) =~= found);
        assert(src.subrange(len as int, len as int) =~= Seq::<u8>::empty());
        assert(""@ =~= Seq::<char>::empty());
    }
    let mark = Token::new("", TokenKind::Eof, Range { start: len, end: len });
    proof {
        assert(encode_utf8(""@) =~= Seq::<u8>::empty()) by {
            reveal_with_fuel(encode_utf8, 1);
        }
    }
    tokens.push(mark);
    assert(views_of(tokens@) =~= tokens_of(src));
    tokens
}

/// The name of a kind, as it is written in diagnostics.
pub open spec fn kind_name(kind: TokenKind) -> Seq<char> {
    match kind {
        TokenKind::Select => "Select"@,
        TokenKind::From => "From"@,
        TokenKind::Where => "Where"@,
        TokenKind::With => "With"@,
        TokenKind::Recursive => "Recursive"@,
        TokenKind::As => "As"@,
        TokenKind::Union => "Union"@,
        TokenKind::All => "All"@,
        TokenKind::And => "And"@,
        TokenKind::Or => "Or"@,
        TokenKind::Insert => "Insert"@,
        TokenKind::Update => "Update"@,
        TokenKind::Delete => "Delete"@,
        TokenKind::Identifier => "Identifier"@,
        TokenKind::String => "String"@,
        TokenKind::Number => "Number"@,
        TokenKind::Float => "Float"@,
        TokenKind::Plus => "Plus"@,
        TokenKind::Minus => "Minus"@,
        TokenKind::Star => "Star"@,
        TokenKind::Slash => "Slash"@,
        TokenKind::Equal => "Equal"@,
        TokenKind::NotEqual => "NotEqual"@,
        TokenKind::Less => "Less"@,
        TokenKind::Greater => "Greater"@,
        TokenKind::LessEqual => "LessEqual"@,
        TokenKind::GreaterEqual => "GreaterEqual"@,
        TokenKind::LeftParen => "LeftParen"@,
        TokenKind::RightParen => "RightParen"@,
        TokenKind::Comma => "Comma"@,
        TokenKind::Semicolon => "Semicolon"@,
        TokenKind::Eof => "Eof"@,
    }
}

impl TokenKind {
    /// The name of the kind.
    pub fn name(self) -> (name: &'static str)
        ensures
            name@ == kind_name(self),
    {
        match self {
            TokenKind::Select => "Select",
            TokenKind::From => "From",
            TokenKind::Where => "Where",
            TokenKind::With => "With",
            TokenKind::Recursive => "Recursive",
            TokenKind::As => "As",
            TokenKind::Union => "Union",
            TokenKind::All => "All",
            TokenKind::And => "And",
            TokenKind::Or => "Or",
            TokenKind::Insert => "Insert",
            TokenKind::Update => "Update",
            TokenKind::Delete => "Delete",
            TokenKind::Identifier => "Identifier",
            TokenKind::String => "String",
            TokenKind::Number => "Number",
            TokenKind::Float => "Float",
            TokenKind::Plus => "Plus",
            TokenKind::Minus => "Minus",
            TokenKind::Star => "Star",
            TokenKind::Slash => "Slash",
            TokenKind::Equal => "Equal",
            TokenKind::NotEqual => "NotEqual",
            TokenKind::Less => "Less",
            TokenKind::Greater => "Greater",
            TokenKind::LessEqual => "LessEqual",
            TokenKind::GreaterEqual => "GreaterEqual",
            TokenKind::LeftParen => "LeftParen",
            TokenKind::RightParen => "RightParen",
            TokenKind::Comma => "Comma",
            TokenKind::Semicolon => "Semicolon",
            TokenKind::Eof => "Eof",
        }
    }
}

impl<'a> Token<'a> {
    /// The token written out: the name of its kind, and its text in
    /// parentheses.
    pub fn to_string(&self) -> (text: String)
        ensures
            text@ == kind_name(self.kind) + "("@ + self.text@ + ")"@,
    {
        let mut text = String::new();
        text.append(self.kind.name());
        text.append("(");
        text.append(self.text);
        text.append(")");
        assert(text@ =~= kind_name(self.kind) + "("@ + self.text@ + ")"@);
        text
    }
}

/// The tokens lie in the input in the order in which they are listed: none
/// is empty, none reaches beyond the input, and none begins before the one
/// before it has ended.
pub proof fn lemma_lexemes_in_order(src: Seq<u8>, at: int)
    requires
        0 <= at,
    ensures
        forall|i: int|
            0 <= i < lexemes(src, at).len() ==> at <= (#[trigger] lexemes(src, at)[i]).start
                < lexemes(src, at)[i].end <= src.len(),
        forall|i: int, j: int|
            0 <= i < j < lexemes(src, at).len() ==> (#[trigger] lexemes(src, at)[i]).end <= (
            #[trigger] lexemes(src, at)[j]).start,
    decreases src.len() - at,
{
    if at < src.len() {
        let found = scan(src, at);
        if at < found.end <= src.len() {
            lemma_lexemes_in_order(src, found.end);
            let rest = lexemes(src, found.end);
            match found.kind {
                Some(kind) => {
                    let first = Lexeme { kind, start: at, end: found.end };
                    let all = lexemes(src, at);
                    assert(all == seq![first] + rest);
                    assert forall|i: int| 0 <= i < all.len() implies at <= (#[trigger] all[i]).start
                        < all[i].end <= src.len() by {
                        if i > 0 {
                            assert(all[i] == rest[i - 1]);
                        }
                    }
                    assert forall|i: int, j: int| 0 <= i < j < all.len() implies (
                    #[trigger] all[i]).end <= (#[trigger] all[j]).start by {
                        assert(all[j] == rest[j - 1]);
                        if i > 0 {
                            assert(all[i] == rest[i - 1]);
                        }
                    }
                },
                None => {},
            }
        }
    }
}

} // verus!
