//! The scanner: a cursor over a source text, and the pass that cuts the text
//! into tokens.

use crate::classify;
use crate::error::{ScanError, ScanErrorKind, ScanErrorView};
use crate::grammar::{
    error_at, errors_from, is_alpha, is_digit, last_lexeme_start, lemma_lexeme_end,
    lemma_line_step, lemma_lines_between, lexeme_at, lexeme_end, line_at, literal_of, newlines,
    number_end, run_end, scan_outcome, string_end, token_at, tokens_from, CharClass, Lexeme,
};
use crate::text::{enclose, text_of};
use crate::token::{Token, TokenType, TokenView};
use vstd::prelude::*;
use vstd::string::*;

verus! {

/// The mathematical value of what a scan returns: the views of the tokens, or
/// the views of the errors.
pub open spec fn outcome_view(result: Result<Vec<Token>, Vec<ScanError>>) -> Result<
    Seq<TokenView>,
    Seq<ScanErrorView>,
> {
    match result {
        Ok(tokens) => Ok(tokens.deep_view()),
        Err(errors) => Err(errors.deep_view()),
    }
}

/// A cursor over one source text.
///
/// A scanner holds its own copy of the text and its place in it: where the
/// lexeme being scanned begins, which character comes next, and a line count.
/// [`Scanner::scan_tokens`] scans the whole text; the steps it is made of are
/// here too, each with what it does to the cursor.
pub struct Scanner {
    /// The characters of the source, closed by a NUL that marks its end.
    chars: Vec<char>,
    /// Where the lexeme being scanned begins.
    start: usize,
    /// The next character to consume.
    current: usize,
    /// The line count, from 1: a step that scans a lexeme counts the newlines
    /// in it.
    line: usize,
}

impl Scanner {
    /// The source text.
    pub closed spec fn source(&self) -> Seq<char> {
        self.chars@.drop_last()
    }

    /// The position in the source at which the lexeme being scanned begins.
    pub closed spec fn lexeme_start(&self) -> nat {
        self.start as nat
    }

    /// The position in the source of the next character to consume.
    pub closed spec fn position(&self) -> nat {
        self.current as nat
    }

    /// The line count.
    pub closed spec fn line_number(&self) -> nat {
        self.line as nat
    }

    /// The end mark is in place, the cursor lies within the source, and the
    /// line count is not ahead of the line on which the cursor lies.
    #[verifier::type_invariant]
    closed spec fn in_bounds(&self) -> bool {
        &&& self.chars.len() > 0
        &&& self.chars@.last() == '\0'
        &&& self.start <= self.current <= self.source().len()
        &&& self.line <= line_at(self.source(), self.current as int)
    }

    /// How far the line count is behind the line on which the cursor lies. A
    /// step that counts the newlines it consumes leaves this as it is.
    closed spec fn line_lag(&self) -> int {
        line_at(self.source(), self.current as int) - self.line
    }

    /// A scanner at the beginning of `source`, on line 1.
    pub fn new(source: &str) -> (scanner: Scanner)
        ensures
            scanner.source() == source@,
            scanner.lexeme_start() == 0,
            scanner.position() == 0,
            scanner.line_number() == 1,
    {
        let mut chars: Vec<char> = Vec::new();
        for c in it: source.chars()
            invariant
                chars@ == it.seq().take(it.index() as int),
                it.seq() == source@,
        {
            chars.push(c);
        }
        chars.push('\0');
        assert(chars@.drop_last() =~= source@);
        assert(source@.take(0) =~= Seq::<char>::empty());
        Scanner { chars, start: 0, current: 0, line: 1 }
    }

    /// Scans the source, from its beginning to its end.
    ///
    /// Returns the tokens in the order of the source, closed by one
    /// end-of-input token on the last line reached. Where the source holds a
    /// lexical error, every error in it is returned instead, in the order of
    /// the source, and no token: an error does not end the scan, which goes on
    /// with the next lexeme.
    ///
    /// An earlier scan or step leaves no trace: every call scans the whole
    /// source anew and returns the same. It leaves the cursor at the end of
    /// the source, on its last line, behind the last lexeme.
    pub fn scan_tokens(&mut self) -> (result: Result<Vec<Token>, Vec<ScanError>>)
        ensures
            final(self).source() == old(self).source(),
            final(self).position() == old(self).source().len(),
            final(self).lexeme_start() == last_lexeme_start(old(self).source(), 0, 0),
            final(self).line_number() == line_at(
                old(self).source(),
                old(self).source().len() as int,
            ),
            outcome_view(result) == scan_outcome(old(self).source()),
    {
        proof {
            use_type_invariant(&*self);
        }
        let ghost src = self.source();
        assert(src.take(0) =~= Seq::<char>::empty());
        self.start = 0;
        self.line = 1;
        self.current = 0;
        let mut tokens: Vec<Token> = Vec::new();
        let mut errors: Vec<ScanError> = Vec::new();
        while !self.is_at_end()
            invariant
                self.in_bounds(),
                self.line_lag() == 0,
                self.source() == src,
                last_lexeme_start(src, self.current as int, self.start as int)
                    == last_lexeme_start(src, 0, 0),
                tokens.deep_view() + tokens_from(src, self.current as int) == tokens_from(src, 0),
                errors.deep_view() + errors_from(src, self.current as int) == errors_from(src, 0),
            decreases src.len() - self.current,
        {
            let ghost pos: int = self.current as int;
            let ghost scanned_tokens = tokens.deep_view();
            let ghost scanned_errors = errors.deep_view();
            proof {
                lemma_lexeme_end(src, pos);
                lemma_lines_between(src, pos, lexeme_end(src, pos));
            }
            match self.scan_token() {
                Ok(Some(token)) => {
                    tokens.push(token);
                    assert(tokens.deep_view() =~= scanned_tokens.push(token@));
                },
                Ok(None) => {},
                Err(error) => {
                    errors.push(error);
                    assert(errors.deep_view() =~= scanned_errors.push(error@));
                },
            }
            proof {
                use_type_invariant(&*self);
            }
            assert(tokens.deep_view() + tokens_from(src, self.current as int) =~= scanned_tokens
                + tokens_from(src, pos));
            assert(errors.deep_view() + errors_from(src, self.current as int) =~= scanned_errors
                + errors_from(src, pos));
        }
        assert(tokens.deep_view() =~= tokens_from(src, 0));
        assert(errors.deep_view() =~= errors_from(src, 0));
        if errors.len() > 0 {
            return Err(errors);
        }
        let ghost scanned_tokens = tokens.deep_view();
        let eof = Token {
            kind: TokenType::EOF,
            lexeme: String::new(),
            literal: None,
            line: self.line,
        };
        tokens.push(eof);
        assert(tokens.deep_view() =~= scanned_tokens.push(eof@));
        Ok(tokens)
    }

    /// Scans the one lexeme that begins at the cursor: marks where it begins,
    /// consumes it, counts the newlines in it, and returns the token it makes,
    /// nothing where it is skipped, or the error it is. A token or an error is
    /// on the line that the count gave before the step.
    pub fn scan_token(&mut self) -> (result: Result<Option<Token>, ScanError>)
        requires
            old(self).position() < old(self).source().len(),
        ensures
            final(self).source() == old(self).source(),
            final(self).lexeme_start() == old(self).position(),
            final(self).position() == lexeme_end(old(self).source(), old(self).position() as int),
            final(self).line_number() == old(self).line_number() + newlines(
                old(self).source().subrange(
                    old(self).position() as int,
                    final(self).position() as int,
                ),
            ),
            match lexeme_at(old(self).source(), old(self).position() as int) {
                Lexeme::Token(kind) => result matches Ok(Some(token)) && token@ == (TokenView {
                    line: old(self).line_number(),
                    ..token_at(old(self).source(), old(self).position() as int, kind)
                }),
                Lexeme::Skipped => result matches Ok(None),
                Lexeme::Error(kind) => result matches Err(error) && error@ == (ScanErrorView {
                    line: old(self).line_number(),
                    ..error_at(old(self).source(), old(self).position() as int, kind)
                }),
            },
    {
        let ghost src = self.source();
        let ghost pos: int = self.current as int;
        proof {
            use_type_invariant(&*self);
            lemma_lexeme_end(src, pos);
            lemma_lines_between(src, pos, lexeme_end(src, pos));
            lemma_lines_between(src, pos + 1, lexeme_end(src, pos));
            lemma_line_step(src, pos);
        }
        self.start = self.current;
        let line: usize = self.line;
        let c = self.advance();
        proof {
            use_type_invariant(&*self);
        }
        if c == '/' {
            if self.match_next('/') {
                proof {
                    lemma_line_step(src, pos + 1);
                }
                self.comment();
                proof {
                    use_type_invariant(&*self);
                }
                return Ok(None);
            }
        }
        if let Some(kind) = classify::punctuation(c) {
            Ok(Some(self.token(kind, line)))
        } else if let Some(single) = classify::operator(c, false) {
            let kind = if self.match_next('=') {
                proof {
                    lemma_line_step(src, pos + 1);
                }
                match classify::operator(c, true) {
                    Some(double) => double,
                    None => single,
                }
            } else {
                single
            };
            Ok(Some(self.token(kind, line)))
        } else if classify::is_whitespace(c) {
            if c == '\n' {
                self.line += 1;
            }
            Ok(None)
        } else if c == '"' {
            match self.string() {
                Ok(token) => Ok(Some(token)),
                Err(error) => Err(error),
            }
        } else if classify::is_digit(c) {
            match self.number() {
                Ok(token) => Ok(Some(token)),
                Err(error) => Err(error),
            }
        } else if classify::is_alpha(c) {
            Ok(Some(self.identifier()))
        } else {
            Err(
                ScanError {
                    kind: ScanErrorKind::UnexpectedCharacter,
                    message: enclose("unexpected character '", c, "'"),
                    line,
                },
            )
        }
    }

    /// Consumes the next character and returns it. The line count stays as it
    /// is.
    pub fn advance(&mut self) -> (c: char)
        requires
            old(self).position() < old(self).source().len(),
        ensures
            c == old(self).source()[old(self).position() as int],
            final(self).source() == old(self).source(),
            final(self).lexeme_start() == old(self).lexeme_start(),
            final(self).position() == old(self).position() + 1,
            final(self).line_number() == old(self).line_number(),
    {
        proof {
            use_type_invariant(&*self);
            lemma_line_step(self.source(), self.current as int);
        }
        let c = self.chars[self.current];
        self.current += 1;
        c
    }

    /// Consumes the next character if it is `expected`, and says whether it
    /// did. The line count stays as it is.
    pub fn match_next(&mut self, expected: char) -> (matched: bool)
        ensures
            matched == (old(self).position() < old(self).source().len() && old(self).source()[old(
                self,
            ).position() as int] == expected),
            final(self).source() == old(self).source(),
            final(self).lexeme_start() == old(self).lexeme_start(),
            final(self).position() == if matched {
                old(self).position() + 1
            } else {
                old(self).position()
            },
            final(self).line_number() == old(self).line_number(),
    {
        proof {
            use_type_invariant(&*self);
        }
        if self.is_at_end() {
            return false;
        }
        if self.chars[self.current] != expected {
            return false;
        }
        proof {
            lemma_line_step(self.source(), self.current as int);
        }
        self.current += 1;
        true
    }

    /// The next character, without consuming it; NUL at the end of the source.
    pub fn peek(&self) -> (c: char)
        ensures
            c == if self.position() < self.source().len() {
                self.source()[self.position() as int]
            } else {
                '\0'
            },
    {
        proof {
            use_type_invariant(self);
        }
        self.chars[self.current]
    }

    /// The character after the next one, without consuming anything; NUL past
    /// the end of the source.
    pub fn peek_next(&self) -> (c: char)
        ensures
            c == if self.position() + 1 < self.source().len() {
                self.source()[self.position() as int + 1]
            } else {
                '\0'
            },
    {
        proof {
            use_type_invariant(self);
        }
        if self.current + 1 >= self.chars.len() {
            '\0'
        } else {
            self.chars[self.current + 1]
        }
    }

    /// Scans the rest of a string literal, whose opening quote has just been
    /// consumed, and counts the newlines in it.
    ///
    /// Where a closing quote follows, returns the string token, on the line
    /// that the count gave before the step; the cursor is then behind the
    /// closing quote. Where none follows, returns the error, on that same
    /// line; the cursor is then at the end of the source.
    pub fn string(&mut self) -> (result: Result<Token, ScanError>)
        requires
            old(self).lexeme_start() + 1 == old(self).position(),
            old(self).source()[old(self).lexeme_start() as int] == '"',
        ensures
            final(self).source() == old(self).source(),
            final(self).lexeme_start() == old(self).lexeme_start(),
            final(self).position() == string_end(
                old(self).source(),
                old(self).lexeme_start() as int,
            ),
            final(self).line_number() == old(self).line_number() + newlines(
                old(self).source().subrange(
                    old(self).position() as int,
                    final(self).position() as int,
                ),
            ),
            match lexeme_at(old(self).source(), old(self).lexeme_start() as int) {
                Lexeme::Token(kind) => result matches Ok(token) && token@ == (TokenView {
                    line: old(self).line_number(),
                    ..token_at(old(self).source(), old(self).lexeme_start() as int, kind)
                }),
                Lexeme::Error(kind) => result matches Err(error) && error@ == (ScanErrorView {
                    line: old(self).line_number(),
                    ..error_at(old(self).source(), old(self).lexeme_start() as int, kind)
                }),
                Lexeme::Skipped => false,
            },
    {
        let ghost src = self.source();
        let ghost before = *self;
        let line: usize = self.line;
        proof {
            use_type_invariant(&*self);
            lemma_lexeme_end(src, self.start as int);
            lemma_lines_between(src, self.current as int, string_end(src, self.start as int));
        }
        while self.peek() != '"' && !self.is_at_end()
            invariant
                self.in_bounds(),
                self.line_lag() == before.line_lag(),
                self.source() == src,
                self.start == before.start,
                self.start < self.current <= src.len(),
                run_end(src, self.current as int, CharClass::StringBody) == run_end(
                    src,
                    self.start + 1,
                    CharClass::StringBody,
                ),
            decreases src.len() - self.current,
        {
            proof {
                lemma_line_step(src, self.current as int);
            }
            let c = self.advance();
            proof {
                use_type_invariant(&*self);
            }
            if c == '\n' {
                self.line += 1;
            }
        }
        if self.is_at_end() {
            return Err(
                ScanError {
                    kind: ScanErrorKind::UnterminatedString,
                    message: String::from_str("unterminated string"),
                    line,
                },
            );
        }
        proof {
            lemma_line_step(src, self.current as int);
        }
        self.advance();
        proof {
            use_type_invariant(&*self);
        }
        Ok(self.token(TokenType::STRING, line))
    }

    /// Scans the rest of a number literal, whose first digit has just been
    /// consumed: the digits that follow, and a fraction where a dot and a
    /// digit follow them. Returns the number token, on the line that the count
    /// gives; a number holds no newline, and the count stays as it is.
    pub fn number(&mut self) -> (result: Result<Token, ScanError>)
        requires
            old(self).lexeme_start() + 1 == old(self).position(),
            is_digit(old(self).source()[old(self).lexeme_start() as int]),
        ensures
            final(self).source() == old(self).source(),
            final(self).lexeme_start() == old(self).lexeme_start(),
            final(self).position() == number_end(
                old(self).source(),
                old(self).lexeme_start() as int,
            ),
            final(self).line_number() == old(self).line_number(),
            newlines(
                old(self).source().subrange(
                    old(self).position() as int,
                    final(self).position() as int,
                ),
            ) == 0,
            result matches Ok(token) && token@ == (TokenView {
                line: old(self).line_number(),
                ..token_at(
                    old(self).source(),
                    old(self).lexeme_start() as int,
                    TokenType::NUMBER,
                )
            }),
    {
        let ghost src = self.source();
        let ghost before = *self;
        proof {
            use_type_invariant(&*self);
            lemma_lexeme_end(src, self.start as int);
            lemma_lines_between(src, self.current as int, number_end(src, self.start as int));
        }
        while classify::is_digit(self.peek())
            invariant
                self.in_bounds(),
                self.line_lag() == before.line_lag(),
                self.line == before.line,
                self.source() == src,
                self.start == before.start,
                self.start < self.current <= src.len(),
                run_end(src, self.current as int, CharClass::Digit) == run_end(
                    src,
                    self.start as int,
                    CharClass::Digit,
                ),
            decreases src.len() - self.current,
        {
            proof {
                lemma_line_step(src, self.current as int);
            }
            self.advance();
            proof {
                use_type_invariant(&*self);
            }
        }
        if self.peek() == '.' && classify::is_digit(self.peek_next()) {
            proof {
                lemma_line_step(src, self.current as int);
            }
            self.advance();
            proof {
                use_type_invariant(&*self);
            }
        }
        let ghost fraction: int = self.current as int;
        while classify::is_digit(self.peek())
            invariant
                self.in_bounds(),
                self.line_lag() == before.line_lag(),
                self.line == before.line,
                self.source() == src,
                self.start == before.start,
                self.start < self.current <= src.len(),
                run_end(src, self.current as int, CharClass::Digit) == run_end(
                    src,
                    fraction,
                    CharClass::Digit,
                ),
            decreases src.len() - self.current,
        {
            proof {
                lemma_line_step(src, self.current as int);
            }
            self.advance();
            proof {
                use_type_invariant(&*self);
            }
        }
        Ok(self.token(TokenType::NUMBER, self.line))
    }

    /// Scans the rest of an identifier or reserved word, whose first character
    /// has just been consumed.
    fn identifier(&mut self) -> (token: Token)
        requires
            old(self).start + 1 == old(self).current,
            is_alpha(old(self).source()[old(self).start as int]),
        ensures
            final(self).in_bounds(),
            final(self).line_lag() == old(self).line_lag(),
            final(self).line == old(self).line,
            final(self).source() == old(self).source(),
            final(self).start == old(self).start,
            final(self).current == lexeme_end(old(self).source(), old(self).start as int),
            lexeme_at(old(self).source(), old(self).start as int) matches Lexeme::Token(kind)
                && token@ == (TokenView {
                line: old(self).line as nat,
                ..token_at(old(self).source(), old(self).start as int, kind)
            }),
    {
        let ghost src = self.source();
        let ghost before = *self;
        proof {
            use_type_invariant(&*self);
        }
        while classify::is_alphanumeric(self.peek())
            invariant
                self.in_bounds(),
                self.line_lag() == before.line_lag(),
                self.line == before.line,
                self.source() == src,
                self.start == before.start,
                self.start < self.current <= src.len(),
                run_end(src, self.current as int, CharClass::Alphanumeric) == run_end(
                    src,
                    self.start + 1,
                    CharClass::Alphanumeric,
                ),
            decreases src.len() - self.current,
        {
            proof {
                lemma_line_step(src, self.current as int);
            }
            self.advance();
            proof {
                use_type_invariant(&*self);
            }
        }
        let lexeme = self.lexeme();
        let kind = match TokenType::keyword(lexeme.as_str()) {
            Some(kind) => kind,
            None => TokenType::IDENTIFIER,
        };
        Token { kind, lexeme, literal: None, line: self.line }
    }

    /// Skips the rest of a line comment, whose two slashes have just been
    /// consumed, up to the newline that ends it.
    fn comment(&mut self)
        requires
            old(self).start + 2 == old(self).current,
        ensures
            final(self).in_bounds(),
            final(self).line_lag() == old(self).line_lag(),
            final(self).line == old(self).line,
            final(self).source() == old(self).source(),
            final(self).start == old(self).start,
            final(self).current == run_end(
                old(self).source(),
                old(self).start + 2,
                CharClass::CommentBody,
            ),
    {
        let ghost src = self.source();
        let ghost before = *self;
        proof {
            use_type_invariant(&*self);
        }
        while self.peek() != '\n' && !self.is_at_end()
            invariant
                self.in_bounds(),
                self.line_lag() == before.line_lag(),
                self.line == before.line,
                self.source() == src,
                self.start == before.start,
                self.start < self.current <= src.len(),
                run_end(src, self.current as int, CharClass::CommentBody) == run_end(
                    src,
                    self.start + 2,
                    CharClass::CommentBody,
                ),
            decreases src.len() - self.current,
        {
            proof {
                lemma_line_step(src, self.current as int);
            }
            self.advance();
            proof {
                use_type_invariant(&*self);
            }
        }
    }

    /// The text of the lexeme being scanned: the source from `start` up to
    /// the cursor.
    fn lexeme(&self) -> (text: String)
        ensures
            text@ == self.source().subrange(self.start as int, self.current as int),
    {
        proof {
            use_type_invariant(self);
        }
        let text = text_of(&self.chars, self.start, self.current);
        assert(text@ =~= self.source().subrange(self.start as int, self.current as int));
        text
    }

    /// The token of kind `kind`, on line `line`, that the lexeme being scanned
    /// makes.
    fn token(&self, kind: TokenType, line: usize) -> (token: Token)
        requires
            kind == TokenType::STRING ==> self.start + 2 <= self.current,
        ensures
            token@.kind == kind,
            token@.lexeme == self.source().subrange(self.start as int, self.current as int),
            token@.literal == literal_of(kind, token@.lexeme),
            token@.line == line,
    {
        proof {
            use_type_invariant(self);
        }
        let lexeme = self.lexeme();
        let literal = match kind {
            TokenType::STRING => {
                let value = text_of(&self.chars, self.start + 1, self.current - 1);
                assert(value@ =~= lexeme@.subrange(1, lexeme@.len() - 1));
                Some(value)
            },
            TokenType::NUMBER => Some(lexeme.clone()),
            _ => None,
        };
        Token { kind, lexeme, literal, line }
    }

    /// Whether the whole source has been consumed.
    pub fn is_at_end(&self) -> (at_end: bool)
        ensures
            at_end == (self.position() >= self.source().len()),
    {
        proof {
            use_type_invariant(self);
        }
        self.current >= self.chars.len() - 1
    }
}

/// Scans `source`: its tokens, closed by the end-of-input token, or every
/// lexical error in it.
pub fn scan(source: &str) -> (result: Result<Vec<Token>, Vec<ScanError>>)
    ensures
        outcome_view(result) == scan_outcome(source@),
{
    let mut scanner = Scanner::new(source);
    scanner.scan_tokens()
}

} // verus!
