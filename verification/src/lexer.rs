//! The tokens of the rule language, read from the bytes of a rule source
//! one at a time.

use vstd::prelude::*;

verus! {

/// The kind of a token.
#[derive(Clone, Copy, Debug, PartialEq, Eq, Structural)]
pub enum TokenKind {
    /// A name: letters, digits, underscores and bytes above the ASCII
    /// range, not starting with a digit.
    Word,
    /// A run of the same bytes that starts with a digit.
    Number,
    /// A string literal, from its opening to its closing quote.
    Text,
    OpenParen,
    CloseParen,
    OpenBracket,
    CloseBracket,
    OpenBrace,
    CloseBrace,
    Less,
    Greater,
    Comma,
    Dot,
    Colon,
    Equals,
    /// The two bytes `->`.
    Arrow,
    /// Any other single byte.
    Other,
    /// A string literal that the source ends in before its closing quote.
    Unterminated,
    /// The end of the source.
    End,
}

/// A token: its kind and the bytes of the source that it spans.
#[derive(Clone, Copy, Debug, PartialEq, Eq, Structural)]
pub struct Token {
    pub kind: TokenKind,
    pub start: usize,
    pub end: usize,
}

/// Model of a [`Token`].
pub struct Lexeme {
    pub kind: TokenKind,
    pub start: int,
    pub end: int,
}

impl View for Token {
    type V = Lexeme;

    open spec fn view(&self) -> Lexeme {
        Lexeme { kind: self.kind, start: self.start as int, end: self.end as int }
    }
}

/// Whether a byte is white space: a blank, a tab, a line feed or a carriage
/// return.
pub open spec fn is_space(b: u8) -> bool {
    b == 0x20 || b == 0x09 || b == 0x0a || b == 0x0d
}

/// Whether a byte is an ASCII digit.
pub open spec fn is_digit(b: u8) -> bool {
    0x30 <= b <= 0x39
}

/// Whether a word may start with the byte: an ASCII letter, an underscore,
/// or a byte above the ASCII range.
pub open spec fn is_word_start(b: u8) -> bool {
    (0x61 <= b <= 0x7a) || (0x41 <= b <= 0x5a) || b == 0x5f || b >= 0x80
}

/// Whether a word may go on with the byte.
pub open spec fn is_word_byte(b: u8) -> bool {
    is_word_start(b) || is_digit(b)
}

/// The first position at or after `pos` that holds no white space.
pub open spec fn skip_space(src: Seq<u8>, pos: int) -> int
    decreases src.len() - pos,
{
    if 0 <= pos < src.len() && is_space(src[pos]) {
        skip_space(src, pos + 1)
    } else {
        pos
    }
}

/// The first position at or after `pos` that holds no byte of a word.
pub open spec fn word_end(src: Seq<u8>, pos: int) -> int
    decreases src.len() - pos,
{
    if 0 <= pos < src.len() && is_word_byte(src[pos]) {
        word_end(src, pos + 1)
    } else {
        pos
    }
}

/// The position after the quote that closes a string literal whose content
/// starts at `pos`; none where the source ends first. A backslash takes the
/// byte after it along.
pub open spec fn text_end(src: Seq<u8>, pos: int) -> Option<int>
    decreases src.len() - pos,
{
    if pos < 0 || pos >= src.len() {
        None
    } else if src[pos] == 0x22 {
        Some(pos + 1)
    } else if src[pos] == 0x5c {
        if pos + 1 < src.len() {
            text_end(src, pos + 2)
        } else {
            None
        }
    } else {
        text_end(src, pos + 1)
    }
}

/// The kind of the token that a single byte makes.
pub open spec fn byte_kind(b: u8) -> TokenKind {
    if b == 0x28 {
        TokenKind::OpenParen
    } else if b == 0x29 {
        TokenKind::CloseParen
    } else if b == 0x5b {
        TokenKind::OpenBracket
    } else if b == 0x5d {
        TokenKind::CloseBracket
    } else if b == 0x7b {
        TokenKind::OpenBrace
    } else if b == 0x7d {
        TokenKind::CloseBrace
    } else if b == 0x3c {
        TokenKind::Less
    } else if b == 0x3e {
        TokenKind::Greater
    } else if b == 0x2c {
        TokenKind::Comma
    } else if b == 0x2e {
        TokenKind::Dot
    } else if b == 0x3a {
        TokenKind::Colon
    } else if b == 0x3d {
        TokenKind::Equals
    } else {
        TokenKind::Other
    }
}

/// The first token at or after `pos`.
pub open spec fn token_at(src: Seq<u8>, pos: int) -> Lexeme {
    let start = skip_space(src, pos);
    if start < 0 || start >= src.len() {
        Lexeme { kind: TokenKind::End, start, end: start }
    } else if is_word_start(src[start]) {
        Lexeme { kind: TokenKind::Word, start, end: word_end(src, start + 1) }
    } else if is_digit(src[start]) {
        Lexeme { kind: TokenKind::Number, start, end: word_end(src, start + 1) }
    } else if src[start] == 0x22 {
        match text_end(src, start + 1) {
            Some(end) => Lexeme { kind: TokenKind::Text, start, end },
            None => Lexeme { kind: TokenKind::Unterminated, start, end: src.len() as int },
        }
    } else if src[start] == 0x2d && start + 1 < src.len() && src[start + 1] == 0x3e {
        Lexeme { kind: TokenKind::Arrow, start, end: start + 2 }
    } else {
        Lexeme { kind: byte_kind(src[start]), start, end: start + 1 }
    }
}

/// The bytes that a token spans.
pub open spec fn token_text(src: Seq<u8>, t: Lexeme) -> Seq<u8> {
    src.subrange(t.start, t.end)
}

/// Skipping white space stays inside the source and never goes back.
pub proof fn lemma_skip_space_bounds(src: Seq<u8>, pos: int)
    requires
        0 <= pos <= src.len(),
    ensures
        pos <= skip_space(src, pos) <= src.len(),
    decreases src.len() - pos,
{
    if pos < src.len() && is_space(src[pos]) {
        lemma_skip_space_bounds(src, pos + 1);
    }
}

/// A word ends inside the source, at or after the position it was read
/// from.
pub proof fn lemma_word_end_bounds(src: Seq<u8>, pos: int)
    requires
        0 <= pos <= src.len(),
    ensures
        pos <= word_end(src, pos) <= src.len(),
    decreases src.len() - pos,
{
    if pos < src.len() && is_word_byte(src[pos]) {
        lemma_word_end_bounds(src, pos + 1);
    }
}

/// A string literal that ends does so inside the source, after the position
/// its content starts at.
pub proof fn lemma_text_end_bounds(src: Seq<u8>, pos: int)
    requires
        0 <= pos <= src.len(),
    ensures
        text_end(src, pos) matches Some(end) ==> pos < end <= src.len(),
    decreases src.len() - pos,
{
    if pos < src.len() && src[pos] != 0x22 {
        if src[pos] == 0x5c {
            if pos + 1 < src.len() {
                lemma_text_end_bounds(src, pos + 2);
            }
        } else {
            lemma_text_end_bounds(src, pos + 1);
        }
    }
}

/// A token lies inside the source, at or after the position it was read
/// from, and only the end of the source is empty.
pub proof fn lemma_token_bounds(src: Seq<u8>, pos: int)
    ensures
        0 <= pos <= src.len() ==> pos <= token_at(src, pos).start <= token_at(src, pos).end
            <= src.len(),
        token_at(src, pos).kind != TokenKind::End ==> 0 <= pos <= token_at(src, pos).start
            < token_at(src, pos).end <= src.len(),
{
    if 0 <= pos <= src.len() {
        lemma_skip_space_bounds(src, pos);
        let start = skip_space(src, pos);
        if start < src.len() {
            lemma_word_end_bounds(src, start + 1);
            lemma_text_end_bounds(src, start + 1);
        }
    }
}

/// Only white space is skipped, and all of it: every byte between `pos` and
/// where skipping ends is white space, and the byte there is not.
pub proof fn lemma_skipped_is_space(src: Seq<u8>, pos: int)
    requires
        0 <= pos <= src.len(),
    ensures
        forall|i: int| pos <= i < skip_space(src, pos) ==> is_space(#[trigger] src[i]),
        skip_space(src, pos) < src.len() ==> !is_space(src[skip_space(src, pos)]),
    decreases src.len() - pos,
{
    if pos < src.len() && is_space(src[pos]) {
        lemma_skipped_is_space(src, pos + 1);
    }
}

/// A word takes every byte of a word that follows, and nothing else.
pub proof fn lemma_word_is_maximal(src: Seq<u8>, pos: int)
    requires
        0 <= pos <= src.len(),
    ensures
        forall|i: int| pos <= i < word_end(src, pos) ==> is_word_byte(#[trigger] src[i]),
        word_end(src, pos) < src.len() ==> !is_word_byte(src[word_end(src, pos)]),
    decreases src.len() - pos,
{
    if pos < src.len() && is_word_byte(src[pos]) {
        lemma_word_is_maximal(src, pos + 1);
    }
}

/// A string literal ends with a quote.
pub proof fn lemma_text_ends_in_quote(src: Seq<u8>, pos: int)
    requires
        0 <= pos <= src.len(),
    ensures
        text_end(src, pos) matches Some(end) ==> pos < end <= src.len() && src[end - 1] == 0x22,
    decreases src.len() - pos,
{
    if pos < src.len() && src[pos] != 0x22 {
        if src[pos] == 0x5c {
            if pos + 1 < src.len() {
                lemma_text_ends_in_quote(src, pos + 2);
            }
        } else {
            lemma_text_ends_in_quote(src, pos + 1);
        }
    }
}

/// The shape of a token. Only white space lies between the position a token
/// was read from and its start. A word starts with a byte that may start a
/// word, a number with a digit; both hold bytes of words alone and end
/// where those end. A string literal starts and ends with a quote.
pub proof fn lemma_token_shape(src: Seq<u8>, pos: int)
    requires
        0 <= pos <= src.len(),
    ensures
        ({
            let t = token_at(src, pos);
            &&& forall|i: int| pos <= i < t.start ==> is_space(#[trigger] src[i])
            &&& t.kind == TokenKind::End <==> t.start == src.len()
            &&& t.kind == TokenKind::Word ==> is_word_start(src[t.start])
            &&& t.kind == TokenKind::Number ==> is_digit(src[t.start])
            &&& t.kind == TokenKind::Word || t.kind == TokenKind::Number ==> (forall|i: int|
                t.start <= i < t.end ==> is_word_byte(#[trigger] src[i])) && (t.end < src.len()
                ==> !is_word_byte(src[t.end]))
            &&& t.kind == TokenKind::Text ==> t.start + 2 <= t.end && src[t.start] == 0x22 && src[t.end
                - 1] == 0x22
            &&& t.kind == TokenKind::Unterminated ==> src[t.start] == 0x22 && t.end == src.len()
        }),
{
    lemma_skip_space_bounds(src, pos);
    lemma_skipped_is_space(src, pos);
    let start = skip_space(src, pos);
    if start < src.len() {
        lemma_word_end_bounds(src, start + 1);
        lemma_word_is_maximal(src, start + 1);
        lemma_text_ends_in_quote(src, start + 1);
    }
}

fn scan_space(src: &[u8], pos: usize) -> (r: usize)
    requires
        pos <= src.len(),
    ensures
        r == skip_space(src@, pos as int),
        pos <= r <= src.len(),
{
    let mut i: usize = pos;
    while i < src.len() && (src[i] == 0x20 || src[i] == 0x09 || src[i] == 0x0a || src[i] == 0x0d)
        invariant
            pos <= i <= src.len(),
            skip_space(src@, pos as int) == skip_space(src@, i as int),
        decreases src.len() - i,
    {
        i = i + 1;
    }
    i
}

fn word_byte(b: u8) -> (r: bool)
    ensures
        r == is_word_byte(b),
{
    (0x61 <= b && b <= 0x7a) || (0x41 <= b && b <= 0x5a) || b == 0x5f || b >= 0x80 || (0x30 <= b
        && b <= 0x39)
}

fn scan_word(src: &[u8], pos: usize) -> (r: usize)
    requires
        pos <= src.len(),
    ensures
        r == word_end(src@, pos as int),
        pos <= r <= src.len(),
{
    let mut i: usize = pos;
    while i < src.len() && word_byte(src[i])
        invariant
            pos <= i <= src.len(),
            word_end(src@, pos as int) == word_end(src@, i as int),
        decreases src.len() - i,
    {
        i = i + 1;
    }
    i
}

fn scan_text(src: &[u8], pos: usize) -> (r: Option<usize>)
    requires
        pos <= src.len(),
    ensures
        match r {
            Some(end) => text_end(src@, pos as int) == Some(end as int) && pos < end <= src.len(),
            None => text_end(src@, pos as int) is None,
        },
{
    let mut i: usize = pos;
    while i < src.len()
        invariant
            pos <= i <= src.len(),
            text_end(src@, pos as int) == text_end(src@, i as int),
        decreases src.len() - i,
    {
        if src[i] == 0x22 {
            return Some(i + 1);
        }
        if src[i] == 0x5c {
            if i + 1 < src.len() {
                i = i + 2;
            } else {
                return None;
            }
        } else {
            i = i + 1;
        }
    }
    None
}

fn kind_of_byte(b: u8) -> (r: TokenKind)
    ensures
        r == byte_kind(b),
{
    if b == 0x28 {
        TokenKind::OpenParen
    } else if b == 0x29 {
        TokenKind::CloseParen
    } else if b == 0x5b {
        TokenKind::OpenBracket
    } else if b == 0x5d {
        TokenKind::CloseBracket
    } else if b == 0x7b {
        TokenKind::OpenBrace
    } else if b == 0x7d {
        TokenKind::CloseBrace
    } else if b == 0x3c {
        TokenKind::Less
    } else if b == 0x3e {
        TokenKind::Greater
    } else if b == 0x2c {
        TokenKind::Comma
    } else if b == 0x2e {
        TokenKind::Dot
    } else if b == 0x3a {
        TokenKind::Colon
    } else if b == 0x3d {
        TokenKind::Equals
    } else {
        TokenKind::Other
    }
}

/// Reads the first token at or after `pos`.
pub fn next_token(src: &[u8], pos: usize) -> (t: Token)
    ensures
        t@ == token_at(src@, pos as int),
        pos <= src.len() ==> pos <= t.start <= t.end <= src.len(),
        t.kind != TokenKind::End ==> t.start < t.end,
{
    if pos >= src.len() {
        return Token { kind: TokenKind::End, start: pos, end: pos };
    }
    let start = scan_space(src, pos);
    if start >= src.len() {
        return Token { kind: TokenKind::End, start, end: start };
    }
    let b = src[start];
    if (0x61 <= b && b <= 0x7a) || (0x41 <= b && b <= 0x5a) || b == 0x5f || b >= 0x80 {
        Token { kind: TokenKind::Word, start, end: scan_word(src, start + 1) }
    } else if 0x30 <= b && b <= 0x39 {
        Token { kind: TokenKind::Number, start, end: scan_word(src, start + 1) }
    } else if b == 0x22 {
        match scan_text(src, start + 1) {
            Some(end) => Token { kind: TokenKind::Text, start, end },
            None => Token { kind: TokenKind::Unterminated, start, end: src.len() },
        }
    } else if b == 0x2d && start + 1 < src.len() && src[start + 1] == 0x3e {
        Token { kind: TokenKind::Arrow, start, end: start + 2 }
    } else {
        Token { kind: kind_of_byte(b), start, end: start + 1 }
    }
}

/// The bytes that a token spans.
pub fn text_of<'a>(src: &'a [u8], t: Token) -> (r: &'a [u8])
    requires
        t.start <= t.end <= src.len(),
    ensures
        r@ == token_text(src@, t@),
{
    vstd::slice::slice_subrange(src, t.start, t.end)
}

} // verus!
