use rlox::scanner::{number_literals, Scanner};
use rlox::token::{Token, TokenKind};

#[test]
fn scanner_identifiers() {
    let source = "andy formless fo _ _123 _abc ab123\nabcdefghijklmnopqrstuvwxyzABCDEFGHIJKLMNOPQRSTUVWXYZ1234567890_";
    let mut scanner = Scanner::new(source);
    let expected_tokens = vec![
        Token::identifier("andy", 1),
        Token::identifier("formless", 1),
        Token::identifier("fo", 1),
        Token::identifier("_", 1),
        Token::identifier("_123", 1),
        Token::identifier("_abc", 1),
        Token::identifier("ab123", 1),
        Token::identifier(
            "abcdefghijklmnopqrstuvwxyzABCDEFGHIJKLMNOPQRSTUVWXYZ1234567890_",
            2,
        ),
        Token::new(TokenKind::Eof, 2),
    ];
    for expected in expected_tokens {
        assert_eq!(scanner.scan_token(), expected);
    }
}

#[test]
fn scanner_keywords() {
    let source = "and class else false for fun if nil or return super this true var while";
    let mut scanner = Scanner::new(source);
    let expected_tokens = vec![
        Token::new(TokenKind::And, 1),
        Token::new(TokenKind::Class, 1),
        Token::new(TokenKind::Else, 1),
        Token::new(TokenKind::False, 1),
        Token::new(TokenKind::For, 1),
        Token::new(TokenKind::Fun, 1),
        Token::new(TokenKind::If, 1),
        Token::new(TokenKind::Nil, 1),
        Token::new(TokenKind::Or, 1),
        Token::new(TokenKind::Return, 1),
        Token::new(TokenKind::Super, 1),
        Token::new(TokenKind::This, 1),
        Token::new(TokenKind::True, 1),
        Token::new(TokenKind::Var, 1),
        Token::new(TokenKind::While, 1),
        Token::new(TokenKind::Eof, 1),
    ];
    for expected in expected_tokens {
        assert_eq!(scanner.scan_token(), expected);
    }
}

#[test]
fn scanner_numbers() {
    let source = "123\n123.456\n.456\n123.";
    let mut scanner = Scanner::new(source);
    let expected_tokens = vec![
        Token::new(TokenKind::Number("123".to_string()), 1),
        Token::new(TokenKind::Number("123.456".to_string()), 2),
        Token::new(TokenKind::Dot, 3),
        Token::new(TokenKind::Number("456".to_string()), 3),
        Token::new(TokenKind::Number("123".to_string()), 4),
        Token::new(TokenKind::Dot, 4),
        Token::new(TokenKind::Eof, 4),
    ];
    for expected in expected_tokens {
        assert_eq!(scanner.scan_token(), expected);
    }
}

#[test]
fn punctuators() {
    let source = "(){};,+-*!===<=>=!=<>/.";
    let mut scanner = Scanner::new(source);
    let expected_tokens = vec![
        Token::new(TokenKind::LeftParen, 1),
        Token::new(TokenKind::RightParen, 1),
        Token::new(TokenKind::LeftBrace, 1),
        Token::new(TokenKind::RightBrace, 1),
        Token::new(TokenKind::Semicolon, 1),
        Token::new(TokenKind::Comma, 1),
        Token::new(TokenKind::Plus, 1),
        Token::new(TokenKind::Minus, 1),
        Token::new(TokenKind::Star, 1),
        Token::new(TokenKind::BangEqual, 1),
        Token::new(TokenKind::EqualEqual, 1),
        Token::new(TokenKind::LessEqual, 1),
        Token::new(TokenKind::GreaterEqual, 1),
        Token::new(TokenKind::BangEqual, 1),
        Token::new(TokenKind::Less, 1),
        Token::new(TokenKind::Greater, 1),
        Token::new(TokenKind::Slash, 1),
        Token::new(TokenKind::Dot, 1),
        Token::new(TokenKind::Eof, 1),
    ];
    for expected in expected_tokens {
        assert_eq!(scanner.scan_token(), expected);
    }
}

#[test]
fn scanner_strings() {
    let source = "\"\"\n\"string\"";
    let mut scanner = Scanner::new(source);
    let expected_tokens = vec![
        Token::new(TokenKind::String("\"\"".to_string()), 1),
        Token::new(TokenKind::String("\"string\"".to_string()), 2),
        Token::new(TokenKind::Eof, 2),
    ];
    for expected in expected_tokens {
        assert_eq!(scanner.scan_token(), expected);
    }
}

#[test]
fn whitespace() {
    let source = "space    tabs\t\t\t\tnewlines\n\n\n\n\nend";
    let mut scanner = Scanner::new(source);
    let expected_tokens = vec![
        Token::identifier("space", 1),
        Token::identifier("tabs", 1),
        Token::identifier("newlines", 1),
        Token::identifier("end", 6),
        Token::new(TokenKind::Eof, 6),
    ];
    for expected in expected_tokens {
        assert_eq!(scanner.scan_token(), expected);
    }
}

#[test]
fn utf8() {
    let source = "var foo = \"\u{1f980}\";";
    let mut scanner = Scanner::new(source);
    for _ in 0..6 {
        println!("{:?}", scanner.scan_token());
    }
}

#[test]
fn string_line_tracking() {
    // A string literal spanning three source lines advances the line
    // counter past the closing quote.
    let source = "\"one\ntwo\nthree\" x";
    let mut scanner = Scanner::new(source);
    let t = scanner.scan_token();
    assert_eq!(
        t,
        Token::new(TokenKind::String("\"one\ntwo\nthree\"".to_string()), 3)
    );
    let x = scanner.scan_token();
    assert_eq!(x, Token::identifier("x", 3));
}

#[test]
fn comments_and_slash() {
    let source = "1 // comment to end of line\n/ 2";
    let mut scanner = Scanner::new(source);
    assert_eq!(
        scanner.scan_token(),
        Token::new(TokenKind::Number("1".to_string()), 1)
    );
    assert_eq!(scanner.scan_token(), Token::new(TokenKind::Slash, 2));
    assert_eq!(
        scanner.scan_token(),
        Token::new(TokenKind::Number("2".to_string()), 2)
    );
    assert_eq!(scanner.scan_token(), Token::new(TokenKind::Eof, 2));
}

#[test]
fn unexpected_character_token() {
    let mut scanner = Scanner::new("#");
    let t = scanner.scan_token();
    assert_eq!(
        t,
        Token::new(TokenKind::Error("Unexpected character.".to_string()), 1)
    );
    // The scanner is not poisoned: the next call carries on.
    assert_eq!(scanner.scan_token(), Token::new(TokenKind::Eof, 1));
}

#[test]
fn unterminated_string_token() {
    let mut scanner = Scanner::new("\"abc");
    let t = scanner.scan_token();
    assert_eq!(
        t,
        Token::new(TokenKind::Error("Unterminated string.".to_string()), 1)
    );
}

#[test]
fn number_literals_in_order() {
    let lits = number_literals("1.5 + (2 * 3.25) - x");
    assert_eq!(lits, vec!["1.5".to_string(), "2".to_string(), "3.25".to_string()]);
}
