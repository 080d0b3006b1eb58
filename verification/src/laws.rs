//! Laws of the lexical grammar: what holds of every source text.

use crate::error::{
    unexpected_character_message, unterminated_string_message, ScanErrorKind, ScanErrorView,
};
use crate::grammar::{
    eof_token, error_at, errors_from, is_alpha, is_alphanumeric, is_digit, is_whitespace,
    lemma_lexeme_end, lemma_line_step, lemma_lines_between, lemma_run_end, lexeme_at, lexeme_end,
    line_at, literal_of, newlines, next_is, number_end, operator_kind, punctuation_kind, run_end,
    scan_outcome, string_end, token_at, tokens_from, word_kind, CharClass, Lexeme,
};
use crate::scanner::outcome_view;
use crate::token::{keyword_kind, Token, TokenType, TokenView};
use crate::ScanError;
use vstd::prelude::*;

verus! {

/// The end-of-input token on line `line`.
pub open spec fn eof_on(line: nat) -> TokenView {
    TokenView { kind: TokenType::EOF, lexeme: Seq::empty(), literal: None, line }
}

/// A run that is known to hold only characters of the class, and to be
/// followed by a character outside it or by the end of the source, is the
/// longest run.
pub proof fn lemma_run_end_is(src: Seq<char>, from: int, class: CharClass, end: int)
    requires
        0 <= from <= end <= src.len(),
        forall|i: int| from <= i < end ==> class.contains(#[trigger] src[i]),
        end < src.len() ==> !class.contains(src[end]),
    ensures
        run_end(src, from, class) == end,
    decreases end - from,
{
    if from < end {
        lemma_run_end_is(src, from + 1, class, end);
    }
}

/// A text without a newline character has no newlines.
pub proof fn lemma_no_newlines(text: Seq<char>)
    requires
        forall|i: int| 0 <= i < text.len() ==> #[trigger] text[i] != '\n',
    ensures
        newlines(text) == 0,
    decreases text.len(),
{
    if text.len() > 0 {
        lemma_no_newlines(text.drop_last());
    }
}

/// Where one lexeme is the whole source, the tokens and the errors of the
/// source are what that lexeme makes.
pub proof fn lemma_one_lexeme(src: Seq<char>)
    requires
        src.len() > 0,
        lexeme_end(src, 0) == src.len(),
    ensures
        tokens_from(src, 0) == match lexeme_at(src, 0) {
            Lexeme::Token(kind) => seq![token_at(src, 0, kind)],
            _ => Seq::empty(),
        },
        errors_from(src, 0) == match lexeme_at(src, 0) {
            Lexeme::Error(kind) => seq![error_at(src, 0, kind)],
            _ => Seq::empty(),
        },
        line_at(src, 0) == 1,
{
    reveal_with_fuel(tokens_from, 2);
    reveal_with_fuel(errors_from, 2);
    assert(tokens_from(src, 0) =~= match lexeme_at(src, 0) {
        Lexeme::Token(kind) => seq![token_at(src, 0, kind)],
        _ => Seq::empty(),
    });
    assert(errors_from(src, 0) =~= match lexeme_at(src, 0) {
        Lexeme::Error(kind) => seq![error_at(src, 0, kind)],
        _ => Seq::empty(),
    });
}

/// The empty source scans to the end-of-input token alone, on line 1.
pub proof fn lemma_empty_source()
    ensures
        scan_outcome(Seq::empty()) == Ok::<Seq<TokenView>, Seq<ScanErrorView>>(seq![eof_on(1)]),
{
}

/// A punctuation character that is the whole source scans to one token of
/// its kind, whose lexeme is the character, and the end-of-input token.
pub proof fn lemma_punctuation_alone(c: char)
    requires
        punctuation_kind(c) is Some,
    ensures
        scan_outcome(seq![c]) == Ok::<Seq<TokenView>, Seq<ScanErrorView>>(
            seq![
                TokenView { kind: punctuation_kind(c)->0, lexeme: seq![c], literal: None, line: 1 },
                eof_on(1),
            ],
        ),
{
    let src = seq![c];
    let token = TokenView { kind: punctuation_kind(c)->0, lexeme: src, literal: None, line: 1 };
    assert(src.subrange(0, 1) =~= src);
    lemma_one_lexeme(src);
    assert(tokens_from(src, 0).push(eof_token(src)) =~= seq![token, eof_on(1)]);
}

/// An operator character that is the whole source scans to the one-character
/// form of the operator.
pub proof fn lemma_operator_alone(c: char)
    requires
        operator_kind(c, false) is Some,
    ensures
        scan_outcome(seq![c]) == Ok::<Seq<TokenView>, Seq<ScanErrorView>>(
            seq![
                TokenView {
                    kind: operator_kind(c, false)->0,
                    lexeme: seq![c],
                    literal: None,
                    line: 1,
                },
                eof_on(1),
            ],
        ),
{
    let src = seq![c];
    let token = TokenView { kind: operator_kind(c, false)->0, lexeme: src, literal: None, line: 1 };
    assert(src.subrange(0, 1) =~= src);
    lemma_one_lexeme(src);
    assert(tokens_from(src, 0).push(eof_token(src)) =~= seq![token, eof_on(1)]);
}

/// An operator character and an `=` that are the whole source scan to the
/// two-character form of the operator, as one token.
pub proof fn lemma_operator_with_equal(c: char)
    requires
        operator_kind(c, true) is Some,
    ensures
        scan_outcome(seq![c, '=']) == Ok::<Seq<TokenView>, Seq<ScanErrorView>>(
            seq![
                TokenView {
                    kind: operator_kind(c, true)->0,
                    lexeme: seq![c, '='],
                    literal: None,
                    line: 1,
                },
                eof_on(1),
            ],
        ),
{
    let src = seq![c, '='];
    let token = TokenView { kind: operator_kind(c, true)->0, lexeme: src, literal: None, line: 1 };
    assert(src.subrange(0, 2) =~= src);
    lemma_one_lexeme(src);
    lemma_line_step(src, 0);
    assert(tokens_from(src, 0).push(eof_token(src)) =~= seq![token, eof_on(1)]);
}

/// Anywhere in a source, an operator character makes the two-character form
/// of its operator with the `=` that follows it, and the one-character form
/// where no `=` follows.
pub proof fn lemma_operator_lexeme(src: Seq<char>, pos: int)
    requires
        0 <= pos < src.len(),
        operator_kind(src[pos], false) is Some,
    ensures
        lexeme_at(src, pos) == Lexeme::Token(operator_kind(src[pos], next_is(src, pos, '='))->0),
        lexeme_end(src, pos) == if next_is(src, pos, '=') {
            pos + 2
        } else {
            pos + 1
        },
        token_at(src, pos, operator_kind(src[pos], next_is(src, pos, '='))->0) == (TokenView {
            kind: operator_kind(src[pos], next_is(src, pos, '='))->0,
            lexeme: src.subrange(pos, lexeme_end(src, pos)),
            literal: None,
            line: line_at(src, pos),
        }),
        newlines(src.subrange(pos, lexeme_end(src, pos))) == 0,
{
    lemma_no_newlines(src.subrange(pos, lexeme_end(src, pos)));
}

/// Anywhere in a source, a punctuation character that opens no comment is a
/// token of its kind by itself: its lexeme is the character, it has no
/// literal, and it holds no newline.
pub proof fn lemma_punctuation_lexeme(src: Seq<char>, pos: int)
    requires
        0 <= pos < src.len(),
        punctuation_kind(src[pos]) is Some,
        !(src[pos] == '/' && next_is(src, pos, '/')),
    ensures
        lexeme_at(src, pos) == Lexeme::Token(punctuation_kind(src[pos])->0),
        lexeme_end(src, pos) == pos + 1,
        token_at(src, pos, punctuation_kind(src[pos])->0) == (TokenView {
            kind: punctuation_kind(src[pos])->0,
            lexeme: seq![src[pos]],
            literal: None,
            line: line_at(src, pos),
        }),
        newlines(src.subrange(pos, pos + 1)) == 0,
{
    assert(src.subrange(pos, pos + 1) =~= seq![src[pos]]);
    lemma_no_newlines(src.subrange(pos, pos + 1));
}

/// Anywhere in a source, a letter or an underscore begins a word that runs
/// as far as letters, digits and underscores go. The word is one token with
/// that exact text and no literal: of the kind of the reserved word where
/// the whole run is one, an identifier otherwise. It holds no newline.
pub proof fn lemma_word_lexeme(src: Seq<char>, pos: int, end: int)
    requires
        0 <= pos < end <= src.len(),
        is_alpha(src[pos]),
        forall|i: int| pos < i < end ==> is_alphanumeric(#[trigger] src[i]),
        end < src.len() ==> !is_alphanumeric(src[end]),
    ensures
        lexeme_at(src, pos) == Lexeme::Token(word_kind(src.subrange(pos, end))),
        lexeme_end(src, pos) == end,
        token_at(src, pos, word_kind(src.subrange(pos, end))) == (TokenView {
            kind: word_kind(src.subrange(pos, end)),
            lexeme: src.subrange(pos, end),
            literal: None,
            line: line_at(src, pos),
        }),
        newlines(src.subrange(pos, end)) == 0,
{
    lemma_run_end_is(src, pos + 1, CharClass::Alphanumeric, end);
    lemma_no_newlines(src.subrange(pos, end));
}

/// Anywhere in a source, a digit begins a number: a token whose literal is
/// its lexeme, which holds digits and at most one dot and no newline. It
/// ends behind its digits, or behind the digits of its fraction where a dot
/// and a digit follow them.
pub proof fn lemma_number_lexeme(src: Seq<char>, pos: int)
    requires
        0 <= pos < src.len(),
        is_digit(src[pos]),
    ensures
        lexeme_at(src, pos) == Lexeme::Token(TokenType::NUMBER),
        lexeme_end(src, pos) == number_end(src, pos),
        token_at(src, pos, TokenType::NUMBER) == (TokenView {
            kind: TokenType::NUMBER,
            lexeme: src.subrange(pos, number_end(src, pos)),
            literal: Some(src.subrange(pos, number_end(src, pos))),
            line: line_at(src, pos),
        }),
        forall|i: int|
            pos <= i < number_end(src, pos) ==> is_digit(#[trigger] src[i]) || (src[i] == '.' && i
                == run_end(src, pos, CharClass::Digit)),
        newlines(src.subrange(pos, number_end(src, pos))) == 0,
{
    let whole: int = run_end(src, pos, CharClass::Digit);
    lemma_run_end(src, pos, CharClass::Digit);
    if whole + 1 < src.len() {
        lemma_run_end(src, whole + 1, CharClass::Digit);
    }
    lemma_no_newlines(src.subrange(pos, number_end(src, pos)));
}

/// A run of letters, digits and underscores that begins with a letter or an
/// underscore and is the whole source scans to one token with that exact
/// text: of the kind of the reserved word where the text is one, an
/// identifier otherwise.
pub proof fn lemma_word_alone(text: Seq<char>)
    requires
        text.len() > 0,
        is_alpha(text[0]),
        forall|i: int| 0 <= i < text.len() ==> is_alphanumeric(#[trigger] text[i]),
    ensures
        scan_outcome(text) == Ok::<Seq<TokenView>, Seq<ScanErrorView>>(
            seq![
                TokenView { kind: word_kind(text), lexeme: text, literal: None, line: 1 },
                eof_on(1),
            ],
        ),
{
    let token = TokenView { kind: word_kind(text), lexeme: text, literal: None, line: 1 };
    lemma_run_end_is(text, 1, CharClass::Alphanumeric, text.len() as int);
    assert(text.subrange(0, text.len() as int) =~= text);
    lemma_one_lexeme(text);
    lemma_no_newlines(text);
    assert(tokens_from(text, 0).push(eof_token(text)) =~= seq![token, eof_on(1)]);
}

/// The reserved words and their kinds.
pub proof fn lemma_reserved_words()
    ensures
        keyword_kind("and"@) == Some(TokenType::AND),
        keyword_kind("class"@) == Some(TokenType::CLASS),
        keyword_kind("else"@) == Some(TokenType::ELSE),
        keyword_kind("false"@) == Some(TokenType::FALSE),
        keyword_kind("fun"@) == Some(TokenType::FUN),
        keyword_kind("for"@) == Some(TokenType::FOR),
        keyword_kind("if"@) == Some(TokenType::IF),
        keyword_kind("nil"@) == Some(TokenType::NIL),
        keyword_kind("or"@) == Some(TokenType::OR),
        keyword_kind("print"@) == Some(TokenType::PRINT),
        keyword_kind("return"@) == Some(TokenType::RETURN),
        keyword_kind("super"@) == Some(TokenType::SUPER),
        keyword_kind("this"@) == Some(TokenType::THIS),
        keyword_kind("true"@) == Some(TokenType::TRUE),
        keyword_kind("var"@) == Some(TokenType::VAR),
        keyword_kind("while"@) == Some(TokenType::WHILE),
{
    reveal_strlit("and");
    reveal_strlit("class");
    reveal_strlit("else");
    reveal_strlit("false");
    reveal_strlit("fun");
    reveal_strlit("for");
    reveal_strlit("if");
    reveal_strlit("nil");
    reveal_strlit("or");
    reveal_strlit("print");
    reveal_strlit("return");
    reveal_strlit("super");
    reveal_strlit("this");
    reveal_strlit("true");
    reveal_strlit("var");
    reveal_strlit("while");
    assert("and"@.len() == 3 && "and"@[0] == 'a' && "and"@[1] == 'n');
    assert("class"@.len() == 5 && "class"@[0] == 'c' && "class"@[1] == 'l');
    assert("else"@.len() == 4 && "else"@[0] == 'e' && "else"@[1] == 'l');
    assert("false"@.len() == 5 && "false"@[0] == 'f' && "false"@[1] == 'a');
    assert("fun"@.len() == 3 && "fun"@[0] == 'f' && "fun"@[1] == 'u');
    assert("for"@.len() == 3 && "for"@[0] == 'f' && "for"@[1] == 'o');
    assert("if"@.len() == 2 && "if"@[0] == 'i' && "if"@[1] == 'f');
    assert("nil"@.len() == 3 && "nil"@[0] == 'n' && "nil"@[1] == 'i');
    assert("or"@.len() == 2 && "or"@[0] == 'o' && "or"@[1] == 'r');
    assert("print"@.len() == 5 && "print"@[0] == 'p' && "print"@[1] == 'r');
    assert("return"@.len() == 6 && "return"@[0] == 'r' && "return"@[1] == 'e');
    assert("super"@.len() == 5 && "super"@[0] == 's' && "super"@[1] == 'u');
    assert("this"@.len() == 4 && "this"@[0] == 't' && "this"@[1] == 'h');
    assert("true"@.len() == 4 && "true"@[0] == 't' && "true"@[1] == 'r');
    assert("var"@.len() == 3 && "var"@[0] == 'v' && "var"@[1] == 'a');
    assert("while"@.len() == 5 && "while"@[0] == 'w' && "while"@[1] == 'h');
}

/// A reserved word that is the whole source scans to one token of the kind
/// of the word.
pub proof fn lemma_reserved_word_alone(text: Seq<char>)
    requires
        keyword_kind(text) is Some,
    ensures
        scan_outcome(text) == Ok::<Seq<TokenView>, Seq<ScanErrorView>>(
            seq![
                TokenView { kind: keyword_kind(text)->0, lexeme: text, literal: None, line: 1 },
                eof_on(1),
            ],
        ),
{
    reveal_strlit("and");
    reveal_strlit("class");
    reveal_strlit("else");
    reveal_strlit("false");
    reveal_strlit("fun");
    reveal_strlit("for");
    reveal_strlit("if");
    reveal_strlit("nil");
    reveal_strlit("or");
    reveal_strlit("print");
    reveal_strlit("return");
    reveal_strlit("super");
    reveal_strlit("this");
    reveal_strlit("true");
    reveal_strlit("var");
    reveal_strlit("while");
    lemma_word_alone(text);
}

/// A run of digits that is the whole source scans to one number token, whose
/// lexeme and literal are the run.
pub proof fn lemma_integer_alone(digits: Seq<char>)
    requires
        digits.len() > 0,
        forall|i: int| 0 <= i < digits.len() ==> is_digit(#[trigger] digits[i]),
    ensures
        scan_outcome(digits) == Ok::<Seq<TokenView>, Seq<ScanErrorView>>(
            seq![
                TokenView {
                    kind: TokenType::NUMBER,
                    lexeme: digits,
                    literal: Some(digits),
                    line: 1,
                },
                eof_on(1),
            ],
        ),
{
    let token = TokenView {
        kind: TokenType::NUMBER,
        lexeme: digits,
        literal: Some(digits),
        line: 1,
    };
    lemma_run_end_is(digits, 0, CharClass::Digit, digits.len() as int);
    assert(digits.subrange(0, digits.len() as int) =~= digits);
    lemma_one_lexeme(digits);
    lemma_no_newlines(digits);
    assert(tokens_from(digits, 0).push(eof_token(digits)) =~= seq![token, eof_on(1)]);
}

/// Digits, a dot and digits again that are the whole source scan to one
/// number token, whose lexeme and literal are the whole.
pub proof fn lemma_decimal_alone(whole: Seq<char>, fraction: Seq<char>)
    requires
        whole.len() > 0,
        fraction.len() > 0,
        forall|i: int| 0 <= i < whole.len() ==> is_digit(#[trigger] whole[i]),
        forall|i: int| 0 <= i < fraction.len() ==> is_digit(#[trigger] fraction[i]),
    ensures
        scan_outcome(whole + seq!['.'] + fraction) == Ok::<Seq<TokenView>, Seq<ScanErrorView>>(
            seq![
                TokenView {
                    kind: TokenType::NUMBER,
                    lexeme: whole + seq!['.'] + fraction,
                    literal: Some(whole + seq!['.'] + fraction),
                    line: 1,
                },
                eof_on(1),
            ],
        ),
{
    let src = whole + seq!['.'] + fraction;
    let token = TokenView { kind: TokenType::NUMBER, lexeme: src, literal: Some(src), line: 1 };
    let dot: int = whole.len() as int;
    assert(forall|i: int| 0 <= i < dot ==> CharClass::Digit.contains(#[trigger] src[i]));
    assert(forall|i: int| dot + 1 <= i < src.len() ==> CharClass::Digit.contains(#[trigger] src[i]));
    lemma_run_end_is(src, 0, CharClass::Digit, dot);
    lemma_run_end_is(src, dot + 1, CharClass::Digit, src.len() as int);
    assert(src.subrange(0, src.len() as int) =~= src);
    lemma_one_lexeme(src);
    lemma_no_newlines(src);
    assert(tokens_from(src, 0).push(eof_token(src)) =~= seq![token, eof_on(1)]);
}

/// Digits and a dot that no digit follows scan to a number token for the
/// digits and a dot token of its own.
pub proof fn lemma_trailing_dot(digits: Seq<char>)
    requires
        digits.len() > 0,
        forall|i: int| 0 <= i < digits.len() ==> is_digit(#[trigger] digits[i]),
    ensures
        scan_outcome(digits + seq!['.']) == Ok::<Seq<TokenView>, Seq<ScanErrorView>>(
            seq![
                TokenView {
                    kind: TokenType::NUMBER,
                    lexeme: digits,
                    literal: Some(digits),
                    line: 1,
                },
                TokenView { kind: TokenType::DOT, lexeme: seq!['.'], literal: None, line: 1 },
                eof_on(1),
            ],
        ),
{
    let src = digits + seq!['.'];
    let number = TokenView {
        kind: TokenType::NUMBER,
        lexeme: digits,
        literal: Some(digits),
        line: 1,
    };
    let dot = TokenView { kind: TokenType::DOT, lexeme: seq!['.'], literal: None, line: 1 };
    let at: int = digits.len() as int;
    assert(forall|i: int| 0 <= i < at ==> CharClass::Digit.contains(#[trigger] src[i]));
    lemma_run_end_is(src, 0, CharClass::Digit, at);
    assert(src.subrange(0, at) =~= digits);
    assert(src.subrange(at, at + 1) =~= seq!['.']);
    assert(src.take(src.len() as int) =~= src);
    lemma_no_newlines(src);
    reveal_with_fuel(tokens_from, 3);
    reveal_with_fuel(errors_from, 3);
    assert(tokens_from(src, 0).push(eof_token(src)) =~= seq![number, dot, eof_on(1)]);
}

/// Anywhere in a source, a double quote opens a string literal that runs to
/// the next double quote. The token's lexeme holds both quotes and its
/// literal what stands between them; it is reported on the line of its
/// opening quote, and each newline in it counts for what follows it.
pub proof fn lemma_string_lexeme(src: Seq<char>, pos: int, close: int)
    requires
        0 <= pos < close < src.len(),
        src[pos] == '"',
        src[close] == '"',
        forall|i: int| pos < i < close ==> #[trigger] src[i] != '"',
    ensures
        lexeme_at(src, pos) == Lexeme::Token(TokenType::STRING),
        lexeme_end(src, pos) == close + 1,
        string_end(src, pos) == close + 1,
        token_at(src, pos, TokenType::STRING) == (TokenView {
            kind: TokenType::STRING,
            lexeme: src.subrange(pos, close + 1),
            literal: Some(src.subrange(pos + 1, close)),
            line: line_at(src, pos),
        }),
        line_at(src, close + 1) == line_at(src, pos) + newlines(src.subrange(pos + 1, close)),
{
    lemma_run_end_is(src, pos + 1, CharClass::StringBody, close);
    assert(src.subrange(pos, close + 1).subrange(1, close - pos) =~= src.subrange(pos + 1, close));
    lemma_line_step(src, pos);
    lemma_line_step(src, close);
    lemma_lines_between(src, pos + 1, close);
}

/// Anywhere in a source, a double quote that no other follows is an
/// unterminated string: an error on the line of the quote, which takes the
/// rest of the source with it.
pub proof fn lemma_unterminated_lexeme(src: Seq<char>, pos: int)
    requires
        0 <= pos < src.len(),
        src[pos] == '"',
        forall|i: int| pos < i < src.len() ==> #[trigger] src[i] != '"',
    ensures
        lexeme_at(src, pos) == Lexeme::Error(ScanErrorKind::UnterminatedString),
        lexeme_end(src, pos) == src.len(),
        string_end(src, pos) == src.len(),
        error_at(src, pos, ScanErrorKind::UnterminatedString) == (ScanErrorView {
            kind: ScanErrorKind::UnterminatedString,
            message: unterminated_string_message(),
            line: line_at(src, pos),
        }),
{
    lemma_run_end_is(src, pos + 1, CharClass::StringBody, src.len() as int);
}

/// A text without a double quote, between two double quotes, scans as the
/// whole source to one string token: its lexeme is the whole, its literal
/// the text, its line the first. The end of input lies as many lines further
/// as the text has newlines.
pub proof fn lemma_string_alone(body: Seq<char>)
    requires
        forall|i: int| 0 <= i < body.len() ==> #[trigger] body[i] != '"',
    ensures
        scan_outcome(seq!['"'] + body + seq!['"']) == Ok::<Seq<TokenView>, Seq<ScanErrorView>>(
            seq![
                TokenView {
                    kind: TokenType::STRING,
                    lexeme: seq!['"'] + body + seq!['"'],
                    literal: Some(body),
                    line: 1,
                },
                eof_on(1 + newlines(body)),
            ],
        ),
{
    let src = seq!['"'] + body + seq!['"'];
    let close: int = body.len() as int + 1;
    let token = TokenView { kind: TokenType::STRING, lexeme: src, literal: Some(body), line: 1 };
    assert(forall|i: int| 0 < i < close ==> #[trigger] src[i] != '"');
    lemma_string_lexeme(src, 0, close);
    assert(src.subrange(0, close + 1) =~= src);
    assert(src.subrange(1, close) =~= body);
    lemma_one_lexeme(src);
    assert(tokens_from(src, 0).push(eof_token(src)) =~= seq![token, eof_on(1 + newlines(body))]);
}

/// A double quote and a text without one scan as the whole source to one
/// error, an unterminated string on line 1, and to no token.
pub proof fn lemma_unterminated_alone(body: Seq<char>)
    requires
        forall|i: int| 0 <= i < body.len() ==> #[trigger] body[i] != '"',
    ensures
        scan_outcome(seq!['"'] + body) == Err::<Seq<TokenView>, Seq<ScanErrorView>>(
            seq![
                ScanErrorView {
                    kind: ScanErrorKind::UnterminatedString,
                    message: unterminated_string_message(),
                    line: 1,
                },
            ],
        ),
{
    let src = seq!['"'] + body;
    assert(forall|i: int| 0 < i < src.len() ==> #[trigger] src[i] != '"');
    lemma_unterminated_lexeme(src, 0);
    lemma_one_lexeme(src);
}

/// Anywhere in a source, two slashes open a comment that runs up to the next
/// newline, or to the end of the source where no newline follows. The
/// comment makes no token and no error, and it holds no newline.
pub proof fn lemma_comment_lexeme(src: Seq<char>, pos: int, end: int)
    requires
        0 <= pos,
        pos + 2 <= end <= src.len(),
        src[pos] == '/',
        src[pos + 1] == '/',
        forall|i: int| pos + 2 <= i < end ==> #[trigger] src[i] != '\n',
        end < src.len() ==> src[end] == '\n',
    ensures
        lexeme_at(src, pos) == Lexeme::Skipped,
        lexeme_end(src, pos) == end,
        tokens_from(src, pos) == tokens_from(src, end),
        errors_from(src, pos) == errors_from(src, end),
        newlines(src.subrange(pos, end)) == 0,
{
    lemma_run_end_is(src, pos + 2, CharClass::CommentBody, end);
    lemma_no_newlines(src.subrange(pos, end));
}

/// Anywhere in a source, two slashes open a comment that runs up to the next
/// newline. Neither the comment nor the newline makes a token or an error,
/// and what follows the newline lies exactly one line further.
pub proof fn lemma_comment_line(src: Seq<char>, pos: int, end: int)
    requires
        0 <= pos,
        pos + 2 <= end < src.len(),
        src[pos] == '/',
        src[pos + 1] == '/',
        src[end] == '\n',
        forall|i: int| pos + 2 <= i < end ==> #[trigger] src[i] != '\n',
    ensures
        lexeme_at(src, pos) == Lexeme::Skipped,
        lexeme_end(src, pos) == end,
        tokens_from(src, pos) == tokens_from(src, end + 1),
        errors_from(src, pos) == errors_from(src, end + 1),
        line_at(src, end + 1) == line_at(src, pos) + 1,
{
    lemma_run_end_is(src, pos + 2, CharClass::CommentBody, end);
    lemma_lines_between(src, pos, end);
    assert(forall|i: int| 0 <= i < end - pos ==> #[trigger] src.subrange(pos, end)[i] != '\n');
    lemma_no_newlines(src.subrange(pos, end));
    lemma_line_step(src, end);
    reveal_with_fuel(tokens_from, 3);
    reveal_with_fuel(errors_from, 3);
}

/// Whether `c` can begin a lexeme that is no error.
pub open spec fn begins_lexeme(c: char) -> bool {
    ||| punctuation_kind(c) is Some
    ||| operator_kind(c, false) is Some
    ||| is_whitespace(c)
    ||| c == '"'
    ||| is_digit(c)
    ||| is_alpha(c)
}

/// Anywhere in a source, a character that can begin no lexeme is an error by
/// itself, on its own line, and the scan goes on behind it: the errors from
/// there on follow this one, and the tokens from there on are kept.
pub proof fn lemma_stray_character(src: Seq<char>, pos: int)
    requires
        0 <= pos < src.len(),
        !begins_lexeme(src[pos]),
    ensures
        lexeme_at(src, pos) == Lexeme::Error(ScanErrorKind::UnexpectedCharacter),
        lexeme_end(src, pos) == pos + 1,
        errors_from(src, pos) == seq![
            ScanErrorView {
                kind: ScanErrorKind::UnexpectedCharacter,
                message: unexpected_character_message(src[pos]),
                line: line_at(src, pos),
            },
        ] + errors_from(src, pos + 1),
        tokens_from(src, pos) == tokens_from(src, pos + 1),
{
}

/// Two characters that can begin no lexeme, on two lines, scan to two
/// errors, each on the line of its character, and to no token.
pub proof fn lemma_two_stray_characters(first: char, second: char)
    requires
        !begins_lexeme(first),
        !begins_lexeme(second),
    ensures
        scan_outcome(seq![first, '\n', second]) == Err::<Seq<TokenView>, Seq<ScanErrorView>>(
            seq![
                ScanErrorView {
                    kind: ScanErrorKind::UnexpectedCharacter,
                    message: unexpected_character_message(first),
                    line: 1,
                },
                ScanErrorView {
                    kind: ScanErrorKind::UnexpectedCharacter,
                    message: unexpected_character_message(second),
                    line: 2,
                },
            ],
        ),
{
    let src = seq![first, '\n', second];
    lemma_stray_character(src, 0);
    lemma_stray_character(src, 2);
    lemma_line_step(src, 0);
    lemma_line_step(src, 1);
    assert(errors_from(src, 0) =~= seq![
        error_at(src, 0, ScanErrorKind::UnexpectedCharacter),
        error_at(src, 2, ScanErrorKind::UnexpectedCharacter),
    ]);
}

/// Where the tokens of `src` from `pos` on begin, in order.
pub open spec fn token_starts(src: Seq<char>, pos: int) -> Seq<int>
    decreases src.len() - pos,
{
    if 0 <= pos < src.len() {
        proof {
            lemma_lexeme_end(src, pos);
        }
        let rest = token_starts(src, lexeme_end(src, pos));
        match lexeme_at(src, pos) {
            Lexeme::Token(_) => seq![pos] + rest,
            _ => rest,
        }
    } else {
        Seq::empty()
    }
}

/// The tokens of a source are lexemes of it, in the order of the source and
/// without overlap: each token is the one that the lexeme at its place
/// makes, and the next token begins at or after the end of that lexeme.
pub proof fn lemma_tokens_in_order(src: Seq<char>, pos: int)
    requires
        0 <= pos,
    ensures
        token_starts(src, pos).len() == tokens_from(src, pos).len(),
        forall|i: int|
            0 <= i < token_starts(src, pos).len() ==> {
                let at: int = #[trigger] token_starts(src, pos)[i];
                &&& pos <= at < src.len()
                &&& lexeme_at(src, at) matches Lexeme::Token(kind) && tokens_from(src, pos)[i]
                    == token_at(src, at, kind)
            },
        forall|i: int, j: int|
            0 <= i < j < token_starts(src, pos).len() ==> lexeme_end(
                src,
                #[trigger] token_starts(src, pos)[i],
            ) <= #[trigger] token_starts(src, pos)[j],
    decreases src.len() - pos,
{
    if pos < src.len() {
        lemma_lexeme_end(src, pos);
        lemma_tokens_in_order(src, lexeme_end(src, pos));
    }
}

/// What holds of every token that stands for a lexeme of `src` at or after
/// `from`: it is no end-of-input token; its lexeme is not empty and stands in
/// the source as it is; its line is that of the place where it stands; and
/// its literal is the one that its kind and its lexeme give.
pub open spec fn is_token_of(token: TokenView, src: Seq<char>, from: int) -> bool {
    &&& token.kind != TokenType::EOF
    &&& token.lexeme.len() > 0
    &&& token.literal == literal_of(token.kind, token.lexeme)
    &&& exists|at: int, end: int|
        from <= at < end <= src.len() && token.lexeme == #[trigger] src.subrange(at, end)
            && token.line == line_at(src, at)
}

/// What holds of every error that stands for a lexeme of `src` at or after
/// `from`: it is on the line of that lexeme, and its message is the one of
/// its kind.
pub open spec fn is_error_of(error: ScanErrorView, src: Seq<char>, from: int) -> bool {
    exists|at: int|
        from <= at < src.len() && error == #[trigger] error_at(src, at, error.kind)
            && error.line == line_at(src, at)
}

/// Every token of a source stands for a lexeme of it.
pub proof fn lemma_tokens_from(src: Seq<char>, pos: int, i: int)
    requires
        0 <= pos,
        0 <= i < tokens_from(src, pos).len(),
    ensures
        is_token_of(tokens_from(src, pos)[i], src, pos),
    decreases src.len() - pos,
{
    lemma_lexeme_end(src, pos);
    match lexeme_at(src, pos) {
        Lexeme::Token(_) => {
            if i > 0 {
                lemma_tokens_from(src, lexeme_end(src, pos), i - 1);
            }
        },
        _ => {
            lemma_tokens_from(src, lexeme_end(src, pos), i);
        },
    }
}

/// Every error of a source stands for a lexeme of it.
pub proof fn lemma_errors_from(src: Seq<char>, pos: int, i: int)
    requires
        0 <= pos,
        0 <= i < errors_from(src, pos).len(),
    ensures
        is_error_of(errors_from(src, pos)[i], src, pos),
    decreases src.len() - pos,
{
    lemma_lexeme_end(src, pos);
    match lexeme_at(src, pos) {
        Lexeme::Error(_) => {
            if i > 0 {
                lemma_errors_from(src, lexeme_end(src, pos), i - 1);
            }
        },
        _ => {
            lemma_errors_from(src, lexeme_end(src, pos), i);
        },
    }
}

/// Where a scan succeeds, its last token is the one end-of-input token, with
/// an empty lexeme and no literal, on the last line of the source; every
/// token before it stands for a lexeme of the source.
pub proof fn lemma_scanned_tokens(src: Seq<char>, i: int)
    requires
        scan_outcome(src) matches Ok(tokens) && 0 <= i < tokens.len(),
    ensures
        scan_outcome(src) matches Ok(tokens) && if i == tokens.len() - 1 {
            tokens[i] == eof_on(line_at(src, src.len() as int))
        } else {
            is_token_of(tokens[i], src, 0)
        },
{
    if i < tokens_from(src, 0).len() {
        lemma_tokens_from(src, 0, i);
    }
}

/// Where a scan fails, it returns at least one error, and every error stands
/// for a lexeme of the source.
pub proof fn lemma_scanned_errors(src: Seq<char>, i: int)
    requires
        scan_outcome(src) matches Err(errors) && 0 <= i < errors.len(),
    ensures
        scan_outcome(src) matches Err(errors) && errors.len() > 0 && is_error_of(
            errors[i],
            src,
            0,
        ),
{
    lemma_errors_from(src, 0, i);
}

/// What a scan returns depends on the source alone: two scans of one text
/// return the same tokens, or the same errors.
pub proof fn lemma_scan_deterministic(
    source: Seq<char>,
    first: Result<Vec<Token>, Vec<ScanError>>,
    second: Result<Vec<Token>, Vec<ScanError>>,
)
    requires
        outcome_view(first) == scan_outcome(source),
        outcome_view(second) == scan_outcome(source),
    ensures
        outcome_view(first) == outcome_view(second),
        first is Ok <==> second is Ok,
{
}

} // verus!
