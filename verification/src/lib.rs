//! Lexical analysis for the Lox scripting language.
//!
//! A [`Scanner`] turns a complete source text into the ordered sequence of its
//! tokens, or into the list of every lexical error found in it. What it returns
//! is stated against the lexical grammar in [`grammar`], a set of mathematical
//! definitions over sequences of characters; [`laws`] holds what follows from
//! those definitions for every source text.

pub mod classify;
pub mod error;
pub mod grammar;
pub mod laws;
pub mod scanner;
mod text;
pub mod token;

pub use error::{ScanError, ScanErrorKind, ScanErrorView};
pub use scanner::{scan, Scanner};
pub use token::{Token, TokenType, TokenView};
