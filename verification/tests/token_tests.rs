use monkey_lexer::lexer::Lexer;
use monkey_lexer::token::{lookup_ident, Token};

#[test]
fn token_test_next_token() {
    let input: &str = "=+(){},;";

    let tests = [
        Token::ASSIGN,
        Token::PLUS,
        Token::LPAREN,
        Token::RPAREN,
        Token::LBRACE,
        Token::RBRACE,
        Token::COMMA,
        Token::SEMICOLON,
        Token::EOF,
    ];

    let mut l = Lexer::new(input);
    for t in tests.iter() {
        assert_eq!(*t, l.next_token());
    }
}

#[test]
fn keywords_take_precedence_over_identifiers() {
    assert_eq!(lookup_ident("let".to_string()), Token::LET);
    assert_eq!(lookup_ident("fn".to_string()), Token::FUNCTION);
    assert_eq!(lookup_ident("true".to_string()), Token::TRUE);
    assert_eq!(lookup_ident("false".to_string()), Token::FALSE);
    assert_eq!(lookup_ident("if".to_string()), Token::IF);
    assert_eq!(lookup_ident("else".to_string()), Token::ELSE);
    assert_eq!(lookup_ident("return".to_string()), Token::RETURN);
}

#[test]
fn other_spellings_stay_identifiers() {
    assert_eq!(lookup_ident("x".to_string()), Token::IDENT("x".to_string()));
    assert_eq!(lookup_ident("lets".to_string()), Token::IDENT("lets".to_string()));
    assert_eq!(lookup_ident("Let".to_string()), Token::IDENT("Let".to_string()));
    assert_eq!(lookup_ident("returns".to_string()), Token::IDENT("returns".to_string()));
}

#[test]
fn is_ident_tells_identifiers_apart() {
    assert!(Token::IDENT("x".to_string()).is_ident());
    assert!(!Token::LET.is_ident());
    assert!(!Token::INT(1).is_ident());
    assert!(!Token::STRING("x".to_string()).is_ident());
}

#[test]
fn is_int_tells_integers_apart() {
    assert!(Token::INT(5).is_int());
    assert!(!Token::IDENT("5x".to_string()).is_int());
    assert!(!Token::EOF.is_int());
}

#[test]
fn render_payload_variants() {
    assert_eq!(Token::IDENT("abc".to_string()).render(), "abc");
    assert_eq!(Token::STRING("foo bar".to_string()).render(), "foo bar");
    assert_eq!(Token::INT(0).render(), "0");
    assert_eq!(Token::INT(5).render(), "5");
    assert_eq!(Token::INT(1100).render(), "1100");
    assert_eq!(Token::INT(-42).render(), "-42");
    assert_eq!(Token::INT(i64::MAX).render(), "9223372036854775807");
    assert_eq!(Token::INT(i64::MIN).render(), "-9223372036854775808");
}

#[test]
fn render_operators_and_delimiters() {
    assert_eq!(Token::ASSIGN.render(), "=");
    assert_eq!(Token::PLUS.render(), "+");
    assert_eq!(Token::MINUS.render(), "-");
    assert_eq!(Token::BANG.render(), "!");
    assert_eq!(Token::ASTERISK.render(), "*");
    assert_eq!(Token::SLASH.render(), "/");
    assert_eq!(Token::LT.render(), "<");
    assert_eq!(Token::GT.render(), ">");
    assert_eq!(Token::EQ.render(), "==");
    assert_eq!(Token::NEQ.render(), "!=");
    assert_eq!(Token::COMMA.render(), ",");
    assert_eq!(Token::SEMICOLON.render(), ";");
    assert_eq!(Token::COLON.render(), ":");
    assert_eq!(Token::LPAREN.render(), "(");
    assert_eq!(Token::RPAREN.render(), ")");
    assert_eq!(Token::LBRACE.render(), "{");
    assert_eq!(Token::RBRACE.render(), "}");
    assert_eq!(Token::LBRACKET.render(), "[");
    assert_eq!(Token::RBRACKET.render(), "]");
}

#[test]
fn render_keywords_and_sentinels() {
    assert_eq!(Token::FUNCTION.render(), "fn");
    assert_eq!(Token::LET.render(), "LET");
    assert_eq!(Token::TRUE.render(), "TRUE");
    assert_eq!(Token::FALSE.render(), "FALSE");
    assert_eq!(Token::IF.render(), "IF");
    assert_eq!(Token::ELSE.render(), "ELSE");
    assert_eq!(Token::RETURN.render(), "RETURN");
    assert_eq!(Token::EOF.render(), "EOF");
    assert_eq!(Token::ILLEGAL.render(), "ILLEGAL");
}

#[test]
fn tokens_equal_only_with_equal_payload() {
    assert_eq!(Token::IDENT("a".to_string()), Token::IDENT("a".to_string()));
    assert_ne!(Token::IDENT("a".to_string()), Token::IDENT("b".to_string()));
    assert_ne!(Token::IDENT("5".to_string()), Token::INT(5));
    assert_eq!(Token::INT(5), Token::INT(5));
    assert_ne!(Token::INT(5), Token::INT(6));
    assert_ne!(Token::STRING("a".to_string()), Token::IDENT("a".to_string()));
}
