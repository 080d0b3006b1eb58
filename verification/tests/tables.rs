use lox::classify::{is_alpha, is_alphanumeric, is_digit, is_whitespace, operator, punctuation};
use lox::TokenType;

#[test]
fn digits() {
    for c in '0'..='9' {
        assert!(is_digit(c));
    }
    assert!(!is_digit('/'));
    assert!(!is_digit(':'));
    assert!(!is_digit('a'));
    assert!(!is_digit('\u{663}'));
}

#[test]
fn letters_and_underscore() {
    for c in ('a'..='z').chain('A'..='Z') {
        assert!(is_alpha(c));
    }
    assert!(is_alpha('_'));
    assert!(!is_alpha('`'));
    assert!(!is_alpha('{'));
    assert!(!is_alpha('@'));
    assert!(!is_alpha('['));
    assert!(!is_alpha('0'));
    assert!(!is_alpha('\u{e9}'));
}

#[test]
fn letters_digits_and_underscore() {
    assert!(is_alphanumeric('a'));
    assert!(is_alphanumeric('Z'));
    assert!(is_alphanumeric('_'));
    assert!(is_alphanumeric('7'));
    assert!(!is_alphanumeric('-'));
    assert!(!is_alphanumeric(' '));
    assert!(!is_alphanumeric('\0'));
}

#[test]
fn whitespace() {
    assert!(is_whitespace(' '));
    assert!(is_whitespace('\r'));
    assert!(is_whitespace('\t'));
    assert!(is_whitespace('\n'));
    assert!(!is_whitespace('\u{b}'));
    assert!(!is_whitespace('\u{a0}'));
    assert!(!is_whitespace('a'));
}

#[test]
fn punctuation_table() {
    assert_eq!(punctuation('('), Some(TokenType::LEFT_PAREN));
    assert_eq!(punctuation(')'), Some(TokenType::RIGHT_PAREN));
    assert_eq!(punctuation('{'), Some(TokenType::LEFT_BRACE));
    assert_eq!(punctuation('}'), Some(TokenType::RIGHT_BRACE));
    assert_eq!(punctuation(','), Some(TokenType::COMMA));
    assert_eq!(punctuation('.'), Some(TokenType::DOT));
    assert_eq!(punctuation('-'), Some(TokenType::MINUS));
    assert_eq!(punctuation('+'), Some(TokenType::PLUS));
    assert_eq!(punctuation(';'), Some(TokenType::SEMICOLON));
    assert_eq!(punctuation('*'), Some(TokenType::STAR));
    assert_eq!(punctuation('/'), Some(TokenType::SLASH));
    assert_eq!(punctuation('!'), None);
    assert_eq!(punctuation('='), None);
    assert_eq!(punctuation('['), None);
    assert_eq!(punctuation('a'), None);
}

#[test]
fn operator_table() {
    assert_eq!(operator('!', false), Some(TokenType::BANG));
    assert_eq!(operator('!', true), Some(TokenType::BANG_EQUAL));
    assert_eq!(operator('=', false), Some(TokenType::EQUAL));
    assert_eq!(operator('=', true), Some(TokenType::EQUAL_EQUAL));
    assert_eq!(operator('<', false), Some(TokenType::LESS));
    assert_eq!(operator('<', true), Some(TokenType::LESS_EQUAL));
    assert_eq!(operator('>', false), Some(TokenType::GREATER));
    assert_eq!(operator('>', true), Some(TokenType::GREATER_EQUAL));
    assert_eq!(operator('+', false), None);
    assert_eq!(operator('+', true), None);
    assert_eq!(operator('/', true), None);
}

#[test]
fn keyword_table() {
    assert_eq!(TokenType::keyword("and"), Some(TokenType::AND));
    assert_eq!(TokenType::keyword("class"), Some(TokenType::CLASS));
    assert_eq!(TokenType::keyword("else"), Some(TokenType::ELSE));
    assert_eq!(TokenType::keyword("false"), Some(TokenType::FALSE));
    assert_eq!(TokenType::keyword("fun"), Some(TokenType::FUN));
    assert_eq!(TokenType::keyword("for"), Some(TokenType::FOR));
    assert_eq!(TokenType::keyword("if"), Some(TokenType::IF));
    assert_eq!(TokenType::keyword("nil"), Some(TokenType::NIL));
    assert_eq!(TokenType::keyword("or"), Some(TokenType::OR));
    assert_eq!(TokenType::keyword("print"), Some(TokenType::PRINT));
    assert_eq!(TokenType::keyword("return"), Some(TokenType::RETURN));
    assert_eq!(TokenType::keyword("super"), Some(TokenType::SUPER));
    assert_eq!(TokenType::keyword("this"), Some(TokenType::THIS));
    assert_eq!(TokenType::keyword("true"), Some(TokenType::TRUE));
    assert_eq!(TokenType::keyword("var"), Some(TokenType::VAR));
    assert_eq!(TokenType::keyword("while"), Some(TokenType::WHILE));
}

#[test]
fn keyword_table_holds_exact_words_only() {
    assert_eq!(TokenType::keyword(""), None);
    assert_eq!(TokenType::keyword("an"), None);
    assert_eq!(TokenType::keyword("andy"), None);
    assert_eq!(TokenType::keyword("And"), None);
    assert_eq!(TokenType::keyword("WHILE"), None);
    assert_eq!(TokenType::keyword("fo"), None);
    assert_eq!(TokenType::keyword("fur"), None);
    assert_eq!(TokenType::keyword("foo_bar2"), None);
    assert_eq!(TokenType::keyword("if "), None);
    assert_eq!(TokenType::keyword("eof"), None);
}
