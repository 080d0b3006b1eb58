//! Lexical errors.

use vstd::prelude::*;

verus! {

/// The two ways in which a source text can fail to scan.
#[derive(Debug, Clone, Copy, PartialEq, Eq, Hash, Structural)]
pub enum ScanErrorKind {
    /// A string literal that the input ends before closing.
    UnterminatedString,
    /// A character that begins no token and is not whitespace.
    UnexpectedCharacter,
}

/// One lexical error: what went wrong and on which line, counted from 1.
#[derive(Debug, PartialEq, Eq)]
pub struct ScanError {
    pub kind: ScanErrorKind,
    pub message: String,
    pub line: usize,
}

/// The mathematical value of a [`ScanError`].
pub struct ScanErrorView {
    pub kind: ScanErrorKind,
    pub message: Seq<char>,
    pub line: nat,
}

impl View for ScanError {
    type V = ScanErrorView;

    open spec fn view(&self) -> ScanErrorView {
        ScanErrorView { kind: self.kind, message: self.message@, line: self.line as nat }
    }
}

impl DeepView for ScanError {
    type V = ScanErrorView;

    open spec fn deep_view(&self) -> ScanErrorView {
        self@
    }
}

/// The message of an unterminated string literal.
pub open spec fn unterminated_string_message() -> Seq<char> {
    "unterminated string"@
}

/// The message of an unexpected character: it names the character between
/// single quotes.
pub open spec fn unexpected_character_message(c: char) -> Seq<char> {
    "unexpected character '"@.push(c) + "'"@
}

} // verus!
