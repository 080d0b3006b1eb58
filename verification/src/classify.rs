//! Executable tests for the character classes and the token tables of the
//! grammar.

use crate::grammar;
use crate::token::TokenType;
use vstd::prelude::*;

verus! {

/// Whether `c` is an ASCII decimal digit.
pub fn is_digit(c: char) -> (r: bool)
    ensures
        r == grammar::is_digit(c),
{
    '0' <= c && c <= '9'
}

/// Whether `c` is an ASCII letter or an underscore.
pub fn is_alpha(c: char) -> (r: bool)
    ensures
        r == grammar::is_alpha(c),
{
    ('a' <= c && c <= 'z') || ('A' <= c && c <= 'Z') || c == '_'
}

/// Whether `c` is an ASCII letter, an ASCII digit or an underscore.
pub fn is_alphanumeric(c: char) -> (r: bool)
    ensures
        r == grammar::is_alphanumeric(c),
{
    is_alpha(c) || is_digit(c)
}

/// Whether `c` is a space, a carriage return, a tab or a newline.
pub fn is_whitespace(c: char) -> (r: bool)
    ensures
        r == grammar::is_whitespace(c),
{
    c == ' ' || c == '\r' || c == '\t' || c == '\n'
}

/// The kind of the punctuation token that `c` is by itself, if it is one.
pub fn punctuation(c: char) -> (kind: Option<TokenType>)
    ensures
        kind == grammar::punctuation_kind(c),
{
    if c == '(' {
        Some(TokenType::LEFT_PAREN)
    } else if c == ')' {
        Some(TokenType::RIGHT_PAREN)
    } else if c == '{' {
        Some(TokenType::LEFT_BRACE)
    } else if c == '}' {
        Some(TokenType::RIGHT_BRACE)
    } else if c == ',' {
        Some(TokenType::COMMA)
    } else if c == '.' {
        Some(TokenType::DOT)
    } else if c == '-' {
        Some(TokenType::MINUS)
    } else if c == '+' {
        Some(TokenType::PLUS)
    } else if c == ';' {
        Some(TokenType::SEMICOLON)
    } else if c == '*' {
        Some(TokenType::STAR)
    } else if c == '/' {
        Some(TokenType::SLASH)
    } else {
        None
    }
}

/// The kind of the operator that begins with `c`, if one does: its
/// two-character form where `with_equal` says that an `=` follows, its
/// one-character form otherwise.
pub fn operator(c: char, with_equal: bool) -> (kind: Option<TokenType>)
    ensures
        kind == grammar::operator_kind(c, with_equal),
{
    if c == '!' {
        Some(if with_equal { TokenType::BANG_EQUAL } else { TokenType::BANG })
    } else if c == '=' {
        Some(if with_equal { TokenType::EQUAL_EQUAL } else { TokenType::EQUAL })
    } else if c == '<' {
        Some(if with_equal { TokenType::LESS_EQUAL } else { TokenType::LESS })
    } else if c == '>' {
        Some(if with_equal { TokenType::GREATER_EQUAL } else { TokenType::GREATER })
    } else {
        None
    }
}

} // verus!
