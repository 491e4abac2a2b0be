//! Classification of single characters.

use crate::token::TokenType;
use vstd::prelude::*;

verus! {

/// What `char::is_alphabetic` answers for a character: whether Unicode
/// counts it as alphabetic.
pub uninterp spec fn alphabetic(c: char) -> bool;

/// What `char::is_alphanumeric` answers for a character: whether Unicode
/// counts it as alphabetic or numeric.
pub uninterp spec fn alphanumeric(c: char) -> bool;

/// Calls `char::is_alphabetic`. Trusted, not proved: the answer depends on
/// the character alone, and is given the name `alphabetic`. Nothing is
/// claimed of what it is for any character.
#[verifier::external_body]
pub(crate) fn is_alphabetic(c: char) -> (b: bool)
    ensures
        b == alphabetic(c),
{
    c.is_alphabetic()
}

/// Calls `char::is_alphanumeric`. Trusted, not proved: the answer depends
/// on the character alone, and is given the name `alphanumeric`. Nothing is
/// claimed of what it is for any character.
#[verifier::external_body]
pub(crate) fn is_alphanumeric(c: char) -> (b: bool)
    ensures
        b == alphanumeric(c),
{
    c.is_alphanumeric()
}

/// A decimal digit, `0` to `9`.
pub open spec fn digit(c: char) -> bool {
    '0' <= c <= '9'
}

/// Whether a character is a decimal digit.
pub fn is_digit(c: char) -> (b: bool)
    ensures
        b == digit(c),
{
    '0' <= c && c <= '9'
}

/// What the scanner does on meeting a character at the start of a token.
#[derive(Debug, PartialEq, Eq, Structural, Clone, Copy)]
pub enum CharKind {
    /// The character is a whole token by itself.
    Single(TokenType),
    /// `/`: a division sign, or, doubled, the start of a line comment.
    Slash,
    /// `=`, `>` or `<`: a token alone, and another when `=` follows.
    Comparison { alone: TokenType, with_equals: TokenType },
    /// `!`: only valid when `=` follows.
    Bang,
    /// `"`: opens a string literal.
    Quote,
    /// A space, tab or newline.
    Blank,
    /// Starts an identifier or keyword.
    Letter,
    /// Starts a numeric literal.
    Digit,
    /// Not part of the language.
    Unexpected,
}

/// The kind of a character, given whether it is alphabetic. The characters
/// of the grammar's punctuation are tried first, then letters, then digits.
pub open spec fn kind_of(c: char, is_alphabetic: bool) -> CharKind {
    if c == '+' {
        CharKind::Single(TokenType::Plus)
    } else if c == '-' {
        CharKind::Single(TokenType::Minus)
    } else if c == '*' {
        CharKind::Single(TokenType::Times)
    } else if c == ';' {
        CharKind::Single(TokenType::Semicolon)
    } else if c == '(' {
        CharKind::Single(TokenType::OpeningParentheses)
    } else if c == ')' {
        CharKind::Single(TokenType::ClosingParentheses)
    } else if c == '{' {
        CharKind::Single(TokenType::OpeningBraces)
    } else if c == '}' {
        CharKind::Single(TokenType::ClosingBraces)
    } else if c == '/' {
        CharKind::Slash
    } else if c == '=' {
        CharKind::Comparison { alone: TokenType::Equals, with_equals: TokenType::DoubleEquals }
    } else if c == '>' {
        CharKind::Comparison { alone: TokenType::Greater, with_equals: TokenType::GreaterOrEqual }
    } else if c == '<' {
        CharKind::Comparison { alone: TokenType::Less, with_equals: TokenType::LessOrEqual }
    } else if c == '!' {
        CharKind::Bang
    } else if c == '"' {
        CharKind::Quote
    } else if c == ' ' || c == '\t' || c == '\n' {
        CharKind::Blank
    } else if is_alphabetic {
        CharKind::Letter
    } else if digit(c) {
        CharKind::Digit
    } else {
        CharKind::Unexpected
    }
}

/// The kind of a character in the source text.
pub open spec fn char_kind(c: char) -> CharKind {
    kind_of(c, alphabetic(c))
}

/// Classify a character, given whether it is alphabetic.
pub fn classify(c: char, is_alphabetic: bool) -> (k: CharKind)
    ensures
        k == kind_of(c, is_alphabetic),
{
    match c {
        '+' => CharKind::Single(TokenType::Plus),
        '-' => CharKind::Single(TokenType::Minus),
        '*' => CharKind::Single(TokenType::Times),
        ';' => CharKind::Single(TokenType::Semicolon),
        '(' => CharKind::Single(TokenType::OpeningParentheses),
        ')' => CharKind::Single(TokenType::ClosingParentheses),
        '{' => CharKind::Single(TokenType::OpeningBraces),
        '}' => CharKind::Single(TokenType::ClosingBraces),
        '/' => CharKind::Slash,
        '=' => CharKind::Comparison {
            alone: TokenType::Equals,
            with_equals: TokenType::DoubleEquals,
        },
        '>' => CharKind::Comparison {
            alone: TokenType::Greater,
            with_equals: TokenType::GreaterOrEqual,
        },
        '<' => CharKind::Comparison {
            alone: TokenType::Less,
            with_equals: TokenType::LessOrEqual,
        },
        '!' => CharKind::Bang,
        '"' => CharKind::Quote,
        ' ' | '\t' | '\n' => CharKind::Blank,
        _ => {
            if is_alphabetic {
                CharKind::Letter
            } else if is_digit(c) {
                CharKind::Digit
            } else {
                CharKind::Unexpected
            }
        },
    }
}

} // verus!
