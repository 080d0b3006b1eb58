use lox::{ScanError, ScanErrorKind, Scanner, Token, TokenType};

fn token(kind: TokenType, lexeme: &str, literal: Option<&str>, line: usize) -> Token {
    Token { kind, lexeme: lexeme.to_string(), literal: literal.map(|text| text.to_string()), line }
}

#[test]
fn new_scanner_stands_at_the_beginning() {
    let scanner = Scanner::new("ab");
    assert!(!scanner.is_at_end());
    assert_eq!(scanner.peek(), 'a');
    assert_eq!(scanner.peek_next(), 'b');
}

#[test]
fn new_scanner_is_on_line_one() {
    let mut scanner = Scanner::new("(\n)");
    assert_eq!(scanner.scan_token(), Ok(Some(token(TokenType::LEFT_PAREN, "(", None, 1))));
    assert_eq!(scanner.scan_token(), Ok(None));
    assert_eq!(scanner.scan_token(), Ok(Some(token(TokenType::RIGHT_PAREN, ")", None, 2))));
}

#[test]
fn new_scanner_of_nothing_is_at_the_end() {
    let scanner = Scanner::new("");
    assert!(scanner.is_at_end());
    assert_eq!(scanner.peek(), '\0');
    assert_eq!(scanner.peek_next(), '\0');
}

#[test]
fn advance_consumes_one_character() {
    let mut scanner = Scanner::new("a=b");
    assert_eq!(scanner.advance(), 'a');
    assert_eq!(scanner.peek(), '=');
    assert_eq!(scanner.advance(), '=');
    assert_eq!(scanner.advance(), 'b');
    assert!(scanner.is_at_end());
}

#[test]
fn peek_consumes_nothing() {
    let scanner = Scanner::new("xy");
    assert_eq!(scanner.peek(), 'x');
    assert_eq!(scanner.peek(), 'x');
    assert_eq!(scanner.peek_next(), 'y');
    assert_eq!(scanner.peek(), 'x');
}

#[test]
fn peek_at_the_last_character() {
    let mut scanner = Scanner::new("xy");
    scanner.advance();
    assert_eq!(scanner.peek(), 'y');
    assert_eq!(scanner.peek_next(), '\0');
    scanner.advance();
    assert_eq!(scanner.peek(), '\0');
    assert_eq!(scanner.peek_next(), '\0');
}

#[test]
fn match_next_consumes_only_what_it_expects() {
    let mut scanner = Scanner::new("!=");
    assert_eq!(scanner.advance(), '!');
    assert!(!scanner.match_next('!'));
    assert_eq!(scanner.peek(), '=');
    assert!(scanner.match_next('='));
    assert!(scanner.is_at_end());
    assert!(!scanner.match_next('='));
    assert!(!scanner.match_next('\0'));
    assert!(scanner.is_at_end());
}

#[test]
fn scan_token_takes_one_lexeme() {
    let mut scanner = Scanner::new("<= x");
    assert_eq!(scanner.scan_token(), Ok(Some(token(TokenType::LESS_EQUAL, "<=", None, 1))));
    assert_eq!(scanner.peek(), ' ');
    assert_eq!(scanner.scan_token(), Ok(None));
    assert_eq!(scanner.scan_token(), Ok(Some(token(TokenType::IDENTIFIER, "x", None, 1))));
    assert!(scanner.is_at_end());
}

#[test]
fn scan_token_leaves_what_follows_an_operator() {
    let mut scanner = Scanner::new("<x");
    assert_eq!(scanner.scan_token(), Ok(Some(token(TokenType::LESS, "<", None, 1))));
    assert_eq!(scanner.peek(), 'x');
}

#[test]
fn scan_token_stops_a_comment_before_its_newline() {
    let mut scanner = Scanner::new("// note\n;");
    assert_eq!(scanner.scan_token(), Ok(None));
    assert_eq!(scanner.peek(), '\n');
    assert_eq!(scanner.scan_token(), Ok(None));
    assert_eq!(scanner.scan_token(), Ok(Some(token(TokenType::SEMICOLON, ";", None, 2))));
}

#[test]
fn scan_token_takes_a_whole_word() {
    let mut scanner = Scanner::new("while_1 while");
    assert_eq!(scanner.scan_token(), Ok(Some(token(TokenType::IDENTIFIER, "while_1", None, 1))));
    assert_eq!(scanner.scan_token(), Ok(None));
    assert_eq!(scanner.scan_token(), Ok(Some(token(TokenType::WHILE, "while", None, 1))));
    assert!(scanner.is_at_end());
}

#[test]
fn scan_token_goes_on_behind_an_error() {
    let mut scanner = Scanner::new("@+");
    assert_eq!(
        scanner.scan_token(),
        Err(ScanError {
            kind: ScanErrorKind::UnexpectedCharacter,
            message: "unexpected character '@'".to_string(),
            line: 1,
        })
    );
    assert_eq!(scanner.scan_token(), Ok(Some(token(TokenType::PLUS, "+", None, 1))));
}

#[test]
fn scan_token_counts_the_newlines_of_a_string() {
    let mut scanner = Scanner::new("\"a\n\nb\"c");
    assert_eq!(
        scanner.scan_token(),
        Ok(Some(token(TokenType::STRING, "\"a\n\nb\"", Some("a\n\nb"), 1)))
    );
    assert_eq!(scanner.scan_token(), Ok(Some(token(TokenType::IDENTIFIER, "c", None, 3))));
}

#[test]
fn string_after_its_opening_quote() {
    let mut scanner = Scanner::new("\"hello\" x");
    assert_eq!(scanner.advance(), '"');
    assert_eq!(scanner.string(), Ok(token(TokenType::STRING, "\"hello\"", Some("hello"), 1)));
    assert_eq!(scanner.peek(), ' ');
}

#[test]
fn string_is_on_the_line_of_its_opening_quote() {
    let mut scanner = Scanner::new("\"one\ntwo\"");
    scanner.advance();
    assert_eq!(scanner.string(), Ok(token(TokenType::STRING, "\"one\ntwo\"", Some("one\ntwo"), 1)));
    assert!(scanner.is_at_end());
}

#[test]
fn string_without_a_closing_quote() {
    let mut scanner = Scanner::new("\"one\ntwo");
    scanner.advance();
    assert_eq!(
        scanner.string(),
        Err(ScanError {
            kind: ScanErrorKind::UnterminatedString,
            message: "unterminated string".to_string(),
            line: 1,
        })
    );
    assert!(scanner.is_at_end());
}

#[test]
fn number_after_its_first_digit() {
    let mut scanner = Scanner::new("12.5+");
    assert_eq!(scanner.advance(), '1');
    assert_eq!(scanner.number(), Ok(token(TokenType::NUMBER, "12.5", Some("12.5"), 1)));
    assert_eq!(scanner.peek(), '+');
}

#[test]
fn number_takes_one_fraction() {
    let mut scanner = Scanner::new("1.2.3");
    scanner.advance();
    assert_eq!(scanner.number(), Ok(token(TokenType::NUMBER, "1.2", Some("1.2"), 1)));
    assert_eq!(scanner.peek(), '.');
    assert_eq!(scanner.peek_next(), '3');
}

#[test]
fn number_leaves_a_dot_that_no_digit_follows() {
    let mut scanner = Scanner::new("7.");
    scanner.advance();
    assert_eq!(scanner.number(), Ok(token(TokenType::NUMBER, "7", Some("7"), 1)));
    assert_eq!(scanner.peek(), '.');
    assert_eq!(scanner.peek_next(), '\0');
}

#[test]
fn scan_tokens_leaves_the_cursor_at_the_end() {
    let mut scanner = Scanner::new("var a = 1;\n");
    assert!(scanner.scan_tokens().is_ok());
    assert!(scanner.is_at_end());
    assert_eq!(scanner.peek(), '\0');
    assert!(!scanner.match_next(';'));

    let mut scanner = Scanner::new("@ \"open");
    assert!(scanner.scan_tokens().is_err());
    assert!(scanner.is_at_end());
}

#[test]
fn scan_tokens_after_steps_scans_the_whole_source() {
    let mut scanner = Scanner::new("a\nb");
    scanner.advance();
    scanner.advance();
    assert_eq!(
        scanner.scan_tokens(),
        Ok(vec![
            token(TokenType::IDENTIFIER, "a", None, 1),
            token(TokenType::IDENTIFIER, "b", None, 2),
            token(TokenType::EOF, "", None, 2),
        ])
    );
}
