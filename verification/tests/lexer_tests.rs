use monkey_lexer::lexer::Lexer;
use monkey_lexer::token::Token;

#[test]
fn test_peek_char() {
    let input: &str = "a b c";
    let mut lexer = Lexer::new(input);

    assert_eq!(lexer.peek_char(), Some('a'));
    lexer.read_char();
    assert_eq!(lexer.peek_char(), Some(' '));
    lexer.read_char();
    assert_eq!(lexer.peek_char(), Some('b'));
    lexer.read_char();
    assert_eq!(lexer.peek_char(), Some(' '));
    lexer.read_char();
    assert_eq!(lexer.peek_char(), Some('c'));
}

#[test]
fn test_read_char() {
    let input: &str = "a b c";
    let mut lexer = Lexer::new(input);

    assert_eq!(lexer.read_char(), Some('a'));
    assert_eq!(lexer.read_char(), Some(' '));
    assert_eq!(lexer.read_char(), Some('b'));
    assert_eq!(lexer.read_char(), Some(' '));
    assert_eq!(lexer.read_char(), Some('c'));
}

#[test]
fn test_eat_whitespace() {
    let input: &str = "a b c";
    let mut lexer = Lexer::new(input);

    assert_eq!(lexer.read_char(), Some('a'));
    lexer.eat_whitespace();
    assert_eq!(lexer.read_char(), Some('b'));
    lexer.eat_whitespace();
    assert_eq!(lexer.read_char(), Some('c'));
}

#[test]
fn test_read_string() {
    let input: &str = "Hello";
    let mut lexer = Lexer::new(input);
    assert_eq!(lexer.read_string(), "Hello");
}

#[test]
fn test_read_int() {
    let input: &str = "100";
    let mut lexer = Lexer::new(input);
    assert_eq!(lexer.read_int('1'), Some(1100));
}

#[test]
fn test_read_identifier() {
    let input: &str = "et";
    let mut lexer = Lexer::new(input);
    assert_eq!(lexer.read_identifier('l'), "let");
}

#[test]
fn lexer_test_next_token() {
    let input = "let five = 5;
let ten = 10;
let add = fn(x, y) {
  x + y;
};
let result = add(five, ten);
!-/*5;
5 < 10 > 5;
if (5 < 10) {
    return true;
} else {
    return false;
}
10 == 10;
10 != 9;
\"foobar\"
\"foo bar\"
[1, 2];
{\"foo\": \"bar\"}";

    let tests = vec![
        Token::LET,
        Token::IDENT("five".to_string()),
        Token::ASSIGN,
        Token::INT(5),
        Token::SEMICOLON,
        Token::LET,
        Token::IDENT("ten".to_string()),
        Token::ASSIGN,
        Token::INT(10),
        Token::SEMICOLON,
        Token::LET,
        Token::IDENT("add".to_string()),
        Token::ASSIGN,
        Token::FUNCTION,
        Token::LPAREN,
        Token::IDENT("x".to_string()),
        Token::COMMA,
        Token::IDENT("y".to_string()),
        Token::RPAREN,
        Token::LBRACE,
        Token::IDENT("x".to_string()),
        Token::PLUS,
        Token::IDENT("y".to_string()),
        Token::SEMICOLON,
        Token::RBRACE,
        Token::SEMICOLON,
        Token::LET,
        Token::IDENT("result".to_string()),
        Token::ASSIGN,
        Token::IDENT("add".to_string()),
        Token::LPAREN,
        Token::IDENT("five".to_string()),
        Token::COMMA,
        Token::IDENT("ten".to_string()),
        Token::RPAREN,
        Token::SEMICOLON,
        Token::BANG,
        Token::MINUS,
        Token::SLASH,
        Token::ASTERISK,
        Token::INT(5),
        Token::SEMICOLON,
        Token::INT(5),
        Token::LT,
        Token::INT(10),
        Token::GT,
        Token::INT(5),
        Token::SEMICOLON,
        Token::IF,
        Token::LPAREN,
        Token::INT(5),
        Token::LT,
        Token::INT(10),
        Token::RPAREN,
        Token::LBRACE,
        Token::RETURN,
        Token::TRUE,
        Token::SEMICOLON,
        Token::RBRACE,
        Token::ELSE,
        Token::LBRACE,
        Token::RETURN,
        Token::FALSE,
        Token::SEMICOLON,
        Token::RBRACE,
        Token::INT(10),
        Token::EQ,
        Token::INT(10),
        Token::SEMICOLON,
        Token::INT(10),
        Token::NEQ,
        Token::INT(9),
        Token::SEMICOLON,
        Token::STRING("foobar".to_string()),
        Token::STRING("foo bar".to_string()),
        Token::LBRACKET,
        Token::INT(1),
        Token::COMMA,
        Token::INT(2),
        Token::RBRACKET,
        Token::SEMICOLON,
        Token::LBRACE,
        Token::STRING("foo".to_string()),
        Token::COLON,
        Token::STRING("bar".to_string()),
        Token::RBRACE,
        Token::EOF,
    ];

    let mut l = Lexer::new(input);

    for t in tests.iter() {
        let tok = l.next_token();

        assert_eq!(*t, tok, "expected {} token but got {}", t.render(), tok.render())
    }
}

#[test]
fn maximal_munch_letter_then_digit() {
    let mut l = Lexer::new("x1");
    assert_eq!(l.next_token(), Token::IDENT("x".to_string()));
    assert_eq!(l.next_token(), Token::INT(1));
    assert_eq!(l.next_token(), Token::EOF);
}

#[test]
fn maximal_munch_letter_then_symbol() {
    let mut l = Lexer::new("abc!d_e2");
    assert_eq!(l.next_token(), Token::IDENT("abc".to_string()));
    assert_eq!(l.next_token(), Token::BANG);
    assert_eq!(l.next_token(), Token::IDENT("d_e".to_string()));
    assert_eq!(l.next_token(), Token::INT(2));
    assert_eq!(l.next_token(), Token::EOF);
}

#[test]
fn underscore_starts_identifier() {
    let mut l = Lexer::new("_foo");
    assert_eq!(l.next_token(), Token::IDENT("_foo".to_string()));
    assert_eq!(l.next_token(), Token::EOF);
}

#[test]
fn equality_is_one_token() {
    let mut l = Lexer::new("==");
    assert_eq!(l.next_token(), Token::EQ);
    assert_eq!(l.next_token(), Token::EOF);
}

#[test]
fn lone_assign_is_one_token() {
    let mut l = Lexer::new("= ");
    assert_eq!(l.next_token(), Token::ASSIGN);
    assert_eq!(l.next_token(), Token::EOF);
}

#[test]
fn inequality_is_one_token() {
    let mut l = Lexer::new("!=");
    assert_eq!(l.next_token(), Token::NEQ);
    assert_eq!(l.next_token(), Token::EOF);
}

#[test]
fn lone_bang_is_one_token() {
    let mut l = Lexer::new("!");
    assert_eq!(l.next_token(), Token::BANG);
    assert_eq!(l.next_token(), Token::EOF);
}

#[test]
fn string_literal_round_trip() {
    let mut l = Lexer::new("\"foo bar\"");
    assert_eq!(l.next_token(), Token::STRING("foo bar".to_string()));
    assert_eq!(l.next_token(), Token::EOF);
}

#[test]
fn unterminated_string_keeps_partial_content() {
    let mut l = Lexer::new("\"abc");
    assert_eq!(l.next_token(), Token::STRING("abc".to_string()));
    assert_eq!(l.next_token(), Token::EOF);
}

#[test]
fn string_keeps_embedded_newline() {
    let mut l = Lexer::new("\"a\nb\"");
    assert_eq!(l.next_token(), Token::STRING("a\nb".to_string()));
    assert_eq!(l.next_token(), Token::EOF);
}

#[test]
fn empty_input_yields_eof_at_once() {
    let mut l = Lexer::new("");
    assert_eq!(l.next_token(), Token::EOF);
    assert_eq!(l.next_token(), Token::EOF);
    assert_eq!(l.next_token(), Token::EOF);
}

#[test]
fn whitespace_only_input_yields_eof_at_once() {
    let mut l = Lexer::new(" \t\r\n  ");
    assert_eq!(l.next_token(), Token::EOF);
    assert_eq!(l.next_token(), Token::EOF);
}

#[test]
fn largest_integer_is_represented() {
    let mut l = Lexer::new("9223372036854775807");
    assert_eq!(l.next_token(), Token::INT(i64::MAX));
    assert_eq!(l.next_token(), Token::EOF);
}

#[test]
fn too_large_integer_is_illegal() {
    let mut l = Lexer::new("9223372036854775808;");
    assert_eq!(l.next_token(), Token::ILLEGAL);
    assert_eq!(l.next_token(), Token::SEMICOLON);
    assert_eq!(l.next_token(), Token::EOF);
}

#[test]
fn far_too_large_integer_is_illegal() {
    let mut l = Lexer::new("99999999999999999999999999999");
    assert_eq!(l.next_token(), Token::ILLEGAL);
    assert_eq!(l.next_token(), Token::EOF);
}

#[test]
fn unrecognized_character_is_illegal() {
    let mut l = Lexer::new("let @");
    assert_eq!(l.next_token(), Token::LET);
    assert_eq!(l.next_token(), Token::ILLEGAL);
    assert_eq!(l.next_token(), Token::EOF);
}
