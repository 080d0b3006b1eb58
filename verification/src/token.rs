//! Tokens: the kinds, the record the scanner emits, and its mathematical view.

use crate::text::is_word;
use vstd::prelude::*;
use vstd::string::*;

verus! {

/// The kind of a token.
#[allow(non_camel_case_types)]
#[derive(Debug, Clone, Copy, PartialEq, Eq, Hash, Structural)]
pub enum TokenType {
    // Single-character punctuation.
    LEFT_PAREN,
    RIGHT_PAREN,
    LEFT_BRACE,
    RIGHT_BRACE,
    COMMA,
    DOT,
    MINUS,
    PLUS,
    SEMICOLON,
    SLASH,
    STAR,
    // Operators of one or two characters.
    BANG,
    BANG_EQUAL,
    EQUAL,
    EQUAL_EQUAL,
    GREATER,
    GREATER_EQUAL,
    LESS,
    LESS_EQUAL,
    // Literals.
    IDENTIFIER,
    STRING,
    NUMBER,
    // Reserved words.
    AND,
    CLASS,
    ELSE,
    FALSE,
    FUN,
    FOR,
    IF,
    NIL,
    OR,
    PRINT,
    RETURN,
    SUPER,
    THIS,
    TRUE,
    VAR,
    WHILE,
    // End of input.
    EOF,
}

/// One token of a source text.
///
/// `lexeme` is the text of the token exactly as it stands in the source, the
/// quotes of a string included. `literal` is the decoded value of a literal:
/// the text between the quotes of a string, and the decimal text of a number,
/// which denotes its value exactly. `line` is the line, counted from 1, on
/// which the token begins.
#[derive(Debug, PartialEq, Eq)]
pub struct Token {
    pub kind: TokenType,
    pub lexeme: String,
    pub literal: Option<String>,
    pub line: usize,
}

/// The mathematical value of a [`Token`].
pub struct TokenView {
    pub kind: TokenType,
    pub lexeme: Seq<char>,
    pub literal: Option<Seq<char>>,
    pub line: nat,
}

impl View for Token {
    type V = TokenView;

    open spec fn view(&self) -> TokenView {
        TokenView {
            kind: self.kind,
            lexeme: self.lexeme@,
            literal: match self.literal {
                Some(text) => Some(text@),
                None => None,
            },
            line: self.line as nat,
        }
    }
}

impl DeepView for Token {
    type V = TokenView;

    open spec fn deep_view(&self) -> TokenView {
        self@
    }
}

/// The kind that a reserved word stands for; `None` for any other text.
pub open spec fn keyword_kind(text: Seq<char>) -> Option<TokenType> {
    if text == "and"@ {
        Some(TokenType::AND)
    } else if text == "class"@ {
        Some(TokenType::CLASS)
    } else if text == "else"@ {
        Some(TokenType::ELSE)
    } else if text == "false"@ {
        Some(TokenType::FALSE)
    } else if text == "fun"@ {
        Some(TokenType::FUN)
    } else if text == "for"@ {
        Some(TokenType::FOR)
    } else if text == "if"@ {
        Some(TokenType::IF)
    } else if text == "nil"@ {
        Some(TokenType::NIL)
    } else if text == "or"@ {
        Some(TokenType::OR)
    } else if text == "print"@ {
        Some(TokenType::PRINT)
    } else if text == "return"@ {
        Some(TokenType::RETURN)
    } else if text == "super"@ {
        Some(TokenType::SUPER)
    } else if text == "this"@ {
        Some(TokenType::THIS)
    } else if text == "true"@ {
        Some(TokenType::TRUE)
    } else if text == "var"@ {
        Some(TokenType::VAR)
    } else if text == "while"@ {
        Some(TokenType::WHILE)
    } else {
        None
    }
}

impl TokenType {
    /// The kind that the reserved word `text` stands for; `None` where `text`
    /// is no reserved word.
    pub fn keyword(text: &str) -> (kind: Option<TokenType>)
        ensures
            kind == keyword_kind(text@),
    {
        let len: usize = text.unicode_len();
        if is_word(text, len, "and") {
            Some(TokenType::AND)
        } else if is_word(text, len, "class") {
            Some(TokenType::CLASS)
        } else if is_word(text, len, "else") {
            Some(TokenType::ELSE)
        } else if is_word(text, len, "false") {
            Some(TokenType::FALSE)
        } else if is_word(text, len, "fun") {
            Some(TokenType::FUN)
        } else if is_word(text, len, "for") {
            Some(TokenType::FOR)
        } else if is_word(text, len, "if") {
            Some(TokenType::IF)
        } else if is_word(text, len, "nil") {
            Some(TokenType::NIL)
        } else if is_word(text, len, "or") {
            Some(TokenType::OR)
        } else if is_word(text, len, "print") {
            Some(TokenType::PRINT)
        } else if is_word(text, len, "return") {
            Some(TokenType::RETURN)
        } else if is_word(text, len, "super") {
            Some(TokenType::SUPER)
        } else if is_word(text, len, "this") {
            Some(TokenType::THIS)
        } else if is_word(text, len, "true") {
            Some(TokenType::TRUE)
        } else if is_word(text, len, "var") {
            Some(TokenType::VAR)
        } else if is_word(text, len, "while") {
            Some(TokenType::WHILE)
        } else {
            None
        }
    }
}

} // verus!
