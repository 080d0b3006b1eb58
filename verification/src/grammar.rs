//! The lexical grammar of Lox, as definitions over sequences of characters.
//!
//! A source text is cut, from left to right, into lexemes: at each position
//! the longest lexeme that can start there is taken, and the next one starts
//! where it ends. A lexeme is a token, a stretch that is skipped (whitespace,
//! a comment), or an error. Everything here is ghost code: the scanner is
//! proved to compute exactly these definitions.
//!
//! A source is a sequence of characters, and a position in it counts
//! characters. The tokens of Lox are written in ASCII: any other character is
//! text inside a string literal or a comment, and an unexpected character
//! everywhere else.

use crate::error::{
    unexpected_character_message, unterminated_string_message, ScanErrorKind, ScanErrorView,
};
use crate::token::{keyword_kind, TokenType, TokenView};
use vstd::prelude::*;

verus! {

/// An ASCII decimal digit.
pub open spec fn is_digit(c: char) -> bool {
    '0' <= c <= '9'
}

/// An ASCII letter or an underscore: what an identifier begins with.
pub open spec fn is_alpha(c: char) -> bool {
    'a' <= c <= 'z' || 'A' <= c <= 'Z' || c == '_'
}

/// What an identifier goes on with.
pub open spec fn is_alphanumeric(c: char) -> bool {
    is_alpha(c) || is_digit(c)
}

/// Whitespace: space, carriage return, tab and newline.
pub open spec fn is_whitespace(c: char) -> bool {
    c == ' ' || c == '\r' || c == '\t' || c == '\n'
}

/// The kind of a character that is, by itself, a punctuation token.
pub open spec fn punctuation_kind(c: char) -> Option<TokenType> {
    if c == '(' {
        Some(TokenType::LEFT_PAREN)
    } else if c == ')' {
        Some(TokenType::RIGHT_PAREN)
    } else if c == '{' {
        Some(TokenType::LEFT_BRACE)
    } else if c == '}' {
        Some(TokenType::RIGHT_BRACE)
    } else if c == ',' {
        Some(TokenType::COMMA)
    } else if c == '.' {
        Some(TokenType::DOT)
    } else if c == '-' {
        Some(TokenType::MINUS)
    } else if c == '+' {
        Some(TokenType::PLUS)
    } else if c == ';' {
        Some(TokenType::SEMICOLON)
    } else if c == '*' {
        Some(TokenType::STAR)
    } else if c == '/' {
        Some(TokenType::SLASH)
    } else {
        None
    }
}

/// The kind of the operator that begins with `c`: the two-character form where
/// an `=` follows (`with_equal`), the one-character form where none does.
/// `None` where `c` begins no operator.
pub open spec fn operator_kind(c: char, with_equal: bool) -> Option<TokenType> {
    if c == '!' {
        Some(if with_equal { TokenType::BANG_EQUAL } else { TokenType::BANG })
    } else if c == '=' {
        Some(if with_equal { TokenType::EQUAL_EQUAL } else { TokenType::EQUAL })
    } else if c == '<' {
        Some(if with_equal { TokenType::LESS_EQUAL } else { TokenType::LESS })
    } else if c == '>' {
        Some(if with_equal { TokenType::GREATER_EQUAL } else { TokenType::GREATER })
    } else {
        None
    }
}

/// The sets of characters of which a lexeme takes a longest run.
pub enum CharClass {
    /// Decimal digits: the parts of a number.
    Digit,
    /// Letters, digits and underscores: the rest of an identifier.
    Alphanumeric,
    /// Everything but a newline: the body of a line comment.
    CommentBody,
    /// Everything but a double quote: the body of a string literal.
    StringBody,
}

impl CharClass {
    /// Whether `c` belongs to the class.
    pub open spec fn contains(self, c: char) -> bool {
        match self {
            CharClass::Digit => is_digit(c),
            CharClass::Alphanumeric => is_alphanumeric(c),
            CharClass::CommentBody => c != '\n',
            CharClass::StringBody => c != '"',
        }
    }
}

/// Where the longest run of characters of `class` that starts at `from` ends:
/// the first position at or after `from` that holds a character outside the
/// class, or the end of `src`.
pub open spec fn run_end(src: Seq<char>, from: int, class: CharClass) -> int
    decreases src.len() - from,
{
    if 0 <= from < src.len() && class.contains(src[from]) {
        run_end(src, from + 1, class)
    } else {
        from
    }
}

/// Whether the character after the one at `pos` is `c`.
pub open spec fn next_is(src: Seq<char>, pos: int, c: char) -> bool {
    pos + 1 < src.len() && src[pos + 1] == c
}

/// Where the number that starts at `pos` ends: after its digits, and after a
/// fraction where a `.` and at least one digit follow them.
pub open spec fn number_end(src: Seq<char>, pos: int) -> int {
    let whole: int = run_end(src, pos, CharClass::Digit);
    if whole + 1 < src.len() && src[whole] == '.' && is_digit(src[whole + 1]) {
        run_end(src, whole + 1, CharClass::Digit)
    } else {
        whole
    }
}

/// Where the string literal whose opening quote is at `pos` ends: after its
/// closing quote, or at the end of `src` where there is none.
pub open spec fn string_end(src: Seq<char>, pos: int) -> int {
    let quote: int = run_end(src, pos + 1, CharClass::StringBody);
    if quote < src.len() {
        quote + 1
    } else {
        quote
    }
}

/// The kind of the word `text`: that of the reserved word it is, or else
/// identifier.
pub open spec fn word_kind(text: Seq<char>) -> TokenType {
    match keyword_kind(text) {
        Some(kind) => kind,
        None => TokenType::IDENTIFIER,
    }
}

/// What a lexeme is.
pub enum Lexeme {
    /// A token of the given kind.
    Token(TokenType),
    /// Whitespace or a comment: nothing comes of it.
    Skipped,
    /// An error of the given kind.
    Error(ScanErrorKind),
}

/// Where the lexeme that starts at `pos` ends (exclusive).
pub open spec fn lexeme_end(src: Seq<char>, pos: int) -> int
    recommends
        0 <= pos < src.len(),
{
    let c = src[pos];
    if c == '/' && next_is(src, pos, '/') {
        run_end(src, pos + 2, CharClass::CommentBody)
    } else if operator_kind(c, false) is Some && next_is(src, pos, '=') {
        pos + 2
    } else if c == '"' {
        string_end(src, pos)
    } else if is_digit(c) {
        number_end(src, pos)
    } else if is_alpha(c) {
        run_end(src, pos + 1, CharClass::Alphanumeric)
    } else {
        pos + 1
    }
}

/// What the lexeme that starts at `pos` is.
pub open spec fn lexeme_at(src: Seq<char>, pos: int) -> Lexeme
    recommends
        0 <= pos < src.len(),
{
    let c = src[pos];
    if c == '/' && next_is(src, pos, '/') {
        Lexeme::Skipped
    } else if punctuation_kind(c) is Some {
        Lexeme::Token(punctuation_kind(c)->0)
    } else if operator_kind(c, false) is Some {
        Lexeme::Token(operator_kind(c, next_is(src, pos, '='))->0)
    } else if is_whitespace(c) {
        Lexeme::Skipped
    } else if c == '"' {
        if run_end(src, pos + 1, CharClass::StringBody) < src.len() {
            Lexeme::Token(TokenType::STRING)
        } else {
            Lexeme::Error(ScanErrorKind::UnterminatedString)
        }
    } else if is_digit(c) {
        Lexeme::Token(TokenType::NUMBER)
    } else if is_alpha(c) {
        Lexeme::Token(word_kind(src.subrange(pos, lexeme_end(src, pos))))
    } else {
        Lexeme::Error(ScanErrorKind::UnexpectedCharacter)
    }
}

/// The number of newlines in `text`.
pub open spec fn newlines(text: Seq<char>) -> nat
    decreases text.len(),
{
    if text.len() == 0 {
        0
    } else {
        newlines(text.drop_last()) + if text.last() == '\n' {
            1nat
        } else {
            0nat
        }
    }
}

/// The line, counted from 1, on which position `pos` of `src` lies.
pub open spec fn line_at(src: Seq<char>, pos: int) -> nat {
    1 + newlines(src.take(pos))
}

/// The decoded value of a token of kind `kind` with text `lexeme`: of a string
/// what stands between its quotes, of a number its text, of anything else
/// nothing.
pub open spec fn literal_of(kind: TokenType, lexeme: Seq<char>) -> Option<Seq<char>> {
    match kind {
        TokenType::STRING => Some(lexeme.subrange(1, lexeme.len() - 1)),
        TokenType::NUMBER => Some(lexeme),
        _ => None,
    }
}

/// The token of kind `kind` that the lexeme at `pos` makes.
pub open spec fn token_at(src: Seq<char>, pos: int, kind: TokenType) -> TokenView {
    let lexeme = src.subrange(pos, lexeme_end(src, pos));
    TokenView { kind, lexeme, literal: literal_of(kind, lexeme), line: line_at(src, pos) }
}

/// The error of kind `kind` that the lexeme at `pos` makes. It is reported on
/// the line on which the lexeme begins.
pub open spec fn error_at(src: Seq<char>, pos: int, kind: ScanErrorKind) -> ScanErrorView {
    ScanErrorView {
        kind,
        message: match kind {
            ScanErrorKind::UnterminatedString => unterminated_string_message(),
            ScanErrorKind::UnexpectedCharacter => unexpected_character_message(src[pos]),
        },
        line: line_at(src, pos),
    }
}

/// The token that closes every token sequence: it stands at the end of `src`.
pub open spec fn eof_token(src: Seq<char>) -> TokenView {
    TokenView {
        kind: TokenType::EOF,
        lexeme: Seq::empty(),
        literal: None,
        line: line_at(src, src.len() as int),
    }
}

/// The tokens of `src` from position `pos` on, in order, without the closing
/// end-of-input token.
pub open spec fn tokens_from(src: Seq<char>, pos: int) -> Seq<TokenView>
    decreases src.len() - pos,
{
    if 0 <= pos < src.len() {
        proof {
            lemma_lexeme_end(src, pos);
        }
        let rest = tokens_from(src, lexeme_end(src, pos));
        match lexeme_at(src, pos) {
            Lexeme::Token(kind) => seq![token_at(src, pos, kind)] + rest,
            _ => rest,
        }
    } else {
        Seq::empty()
    }
}

/// The lexical errors of `src` from position `pos` on, in the order in which
/// they occur.
pub open spec fn errors_from(src: Seq<char>, pos: int) -> Seq<ScanErrorView>
    decreases src.len() - pos,
{
    if 0 <= pos < src.len() {
        proof {
            lemma_lexeme_end(src, pos);
        }
        let rest = errors_from(src, lexeme_end(src, pos));
        match lexeme_at(src, pos) {
            Lexeme::Error(kind) => seq![error_at(src, pos, kind)] + rest,
            _ => rest,
        }
    } else {
        Seq::empty()
    }
}

/// Where the last lexeme of `src` that begins at or after `pos` begins;
/// `before` where none does.
pub open spec fn last_lexeme_start(src: Seq<char>, pos: int, before: int) -> int
    decreases src.len() - pos,
{
    if 0 <= pos < src.len() {
        proof {
            lemma_lexeme_end(src, pos);
        }
        last_lexeme_start(src, lexeme_end(src, pos), pos)
    } else {
        before
    }
}

/// What scanning `src` comes to: every error where there is one, and
/// otherwise the tokens, closed by the end-of-input token.
pub open spec fn scan_outcome(src: Seq<char>) -> Result<Seq<TokenView>, Seq<ScanErrorView>> {
    if errors_from(src, 0).len() > 0 {
        Err(errors_from(src, 0))
    } else {
        Ok(tokens_from(src, 0).push(eof_token(src)))
    }
}

/// The end of the longest run of `class` from `from` lies between `from` and
/// the end of `src`; every character of the run is in the class; and the run
/// cannot be made longer.
pub proof fn lemma_run_end(src: Seq<char>, from: int, class: CharClass)
    requires
        0 <= from <= src.len(),
    ensures
        from <= run_end(src, from, class) <= src.len(),
        forall|i: int| from <= i < run_end(src, from, class) ==> class.contains(#[trigger] src[i]),
        run_end(src, from, class) < src.len() ==> !class.contains(src[run_end(src, from, class)]),
    decreases src.len() - from,
{
    if from < src.len() && class.contains(src[from]) {
        lemma_run_end(src, from + 1, class);
    }
}

/// A lexeme is never empty and never reaches past the end of the source.
pub proof fn lemma_lexeme_end(src: Seq<char>, pos: int)
    requires
        0 <= pos < src.len(),
    ensures
        pos < lexeme_end(src, pos) <= src.len(),
{
    let c = src[pos];
    if c == '/' && next_is(src, pos, '/') {
        lemma_run_end(src, pos + 2, CharClass::CommentBody);
    } else if operator_kind(c, false) is Some && next_is(src, pos, '=') {
    } else if c == '"' {
        lemma_run_end(src, pos + 1, CharClass::StringBody);
    } else if is_digit(c) {
        lemma_run_end(src, pos, CharClass::Digit);
        let whole: int = run_end(src, pos, CharClass::Digit);
        if whole + 1 < src.len() {
            lemma_run_end(src, whole + 1, CharClass::Digit);
        }
    } else if is_alpha(c) {
        lemma_run_end(src, pos + 1, CharClass::Alphanumeric);
    }
}

/// No text holds more newlines than characters.
pub proof fn lemma_newlines_bound(text: Seq<char>)
    ensures
        newlines(text) <= text.len(),
    decreases text.len(),
{
    if text.len() > 0 {
        lemma_newlines_bound(text.drop_last());
    }
}

/// The line goes up by one over a newline, and stays over any other character.
pub proof fn lemma_line_step(src: Seq<char>, pos: int)
    requires
        0 <= pos < src.len(),
    ensures
        line_at(src, pos + 1) == line_at(src, pos) + if src[pos] == '\n' {
            1nat
        } else {
            0nat
        },
        line_at(src, pos + 1) <= pos + 2,
{
    assert(src.take(pos + 1).drop_last() =~= src.take(pos));
    lemma_newlines_bound(src.take(pos + 1));
}

/// The newlines of two texts joined are those of the one and those of the
/// other.
pub proof fn lemma_newlines_concat(a: Seq<char>, b: Seq<char>)
    ensures
        newlines(a + b) == newlines(a) + newlines(b),
    decreases b.len(),
{
    if b.len() == 0 {
    } else {
        assert((a + b).drop_last() =~= a + b.drop_last());
        lemma_newlines_concat(a, b.drop_last());
    }
}

/// From one position to a later one the line goes up by the number of
/// newlines between them.
pub proof fn lemma_lines_between(src: Seq<char>, from: int, to: int)
    requires
        0 <= from <= to <= src.len(),
    ensures
        line_at(src, to) == line_at(src, from) + newlines(src.subrange(from, to)),
{
    assert(src.take(to) =~= src.take(from) + src.subrange(from, to));
    lemma_newlines_concat(src.take(from), src.subrange(from, to));
}

} // verus!
