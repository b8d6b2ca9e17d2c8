use rlox::token::{Token, TokenKind};

#[test]
fn token_identifiers() {
    assert_eq!(
        Token::identifier("andy", 1).to_string(),
        "IDENTIFIER andy null"
    );
    assert_eq!(
        Token::identifier("formless", 1).to_string(),
        "IDENTIFIER formless null"
    );
}

#[test]
fn token_keywords() {
    assert_eq!(Token::new(TokenKind::And, 1).to_string(), "AND and null");
    assert_eq!(
        Token::new(TokenKind::Class, 1).to_string(),
        "CLASS class null"
    );
}

#[test]
fn token_numbers() {
    let token = Token::new(TokenKind::Number("123".to_string()), 1);
    assert_eq!(token.to_string(), "NUMBER 123 123.0");
    let token = Token::new(TokenKind::Number("123.456".to_string()), 2);
    assert_eq!(token.to_string(), "NUMBER 123.456 123.456");
}

#[test]
fn token_strings() {
    let token = Token::new(TokenKind::String("\"\"".to_string()), 1);
    assert_eq!(token.to_string(), "STRING \"\" ");
    let token = Token::new(TokenKind::String("\"string\"".to_string()), 1);
    assert_eq!(token.to_string(), "STRING \"string\" string");
}

#[test]
fn token_number_normalization() {
    // The numeric value column is the decimal normalization of the lexeme.
    let token = Token::new(TokenKind::Number("007.10".to_string()), 1);
    assert_eq!(token.to_string(), "NUMBER 007.10 7.1");
    let token = Token::new(TokenKind::Number("0.5".to_string()), 1);
    assert_eq!(token.to_string(), "NUMBER 0.5 0.5");
    let token = Token::new(TokenKind::Number("000".to_string()), 1);
    assert_eq!(token.to_string(), "NUMBER 000 0.0");
}

#[test]
fn token_lexemes() {
    assert_eq!(Token::new(TokenKind::LeftParen, 1).lexeme(), "(");
    assert_eq!(Token::new(TokenKind::BangEqual, 1).lexeme(), "!=");
    assert_eq!(Token::new(TokenKind::While, 1).lexeme(), "while");
    assert_eq!(Token::identifier("abc", 1).lexeme(), "abc");
    assert_eq!(Token::new(TokenKind::Eof, 1).lexeme(), " ");
}
