//! The token model: the closed vocabulary of lexical units, keyword
//! recognition, and human-readable rendering.

use vstd::prelude::*;
use vstd::string::StringExecFns;
use crate::text::{dec_rep_int, i64_to_decimal, str_eq};

verus! {

/// One lexical unit. Identifiers, integers and string literals carry their
/// payload; every other variant is a pure marker whose identity is its tag.
#[allow(non_camel_case_types)]
#[derive(Hash, Eq, PartialEq, Clone, Debug)]
pub enum Token {
    ILLEGAL,
    EOF,
    IDENT(String),
    INT(i64),
    STRING(String),
    ASSIGN,
    PLUS,
    MINUS,
    BANG,
    ASTERISK,
    SLASH,
    LT,
    GT,
    EQ,
    NEQ,
    COMMA,
    SEMICOLON,
    COLON,
    LPAREN,
    RPAREN,
    LBRACE,
    RBRACE,
    LBRACKET,
    RBRACKET,
    FUNCTION,
    LET,
    TRUE,
    FALSE,
    IF,
    ELSE,
    RETURN,
}

/// The mathematical shape of a token: the same variants as [`Token`], with
/// payloads as character sequences and an unbounded integer.
pub enum TokenView {
    Illegal,
    Eof,
    Ident(Seq<char>),
    Int(int),
    Str(Seq<char>),
    Assign,
    Plus,
    Minus,
    Bang,
    Asterisk,
    Slash,
    Lt,
    Gt,
    Equal,
    NotEqual,
    Comma,
    Semicolon,
    Colon,
    LParen,
    RParen,
    LBrace,
    RBrace,
    LBracket,
    RBracket,
    Function,
    Let,
    True,
    False,
    If,
    Else,
    Return,
}

impl View for Token {
    type V = TokenView;

    open spec fn view(&self) -> TokenView {
        match self {
            Token::ILLEGAL => TokenView::Illegal,
            Token::EOF => TokenView::Eof,
            Token::IDENT(name) => TokenView::Ident(name@),
            Token::INT(v) => TokenView::Int(*v as int),
            Token::STRING(s) => TokenView::Str(s@),
            Token::ASSIGN => TokenView::Assign,
            Token::PLUS => TokenView::Plus,
            Token::MINUS => TokenView::Minus,
            Token::BANG => TokenView::Bang,
            Token::ASTERISK => TokenView::Asterisk,
            Token::SLASH => TokenView::Slash,
            Token::LT => TokenView::Lt,
            Token::GT => TokenView::Gt,
            Token::EQ => TokenView::Equal,
            Token::NEQ => TokenView::NotEqual,
            Token::COMMA => TokenView::Comma,
            Token::SEMICOLON => TokenView::Semicolon,
            Token::COLON => TokenView::Colon,
            Token::LPAREN => TokenView::LParen,
            Token::RPAREN => TokenView::RParen,
            Token::LBRACE => TokenView::LBrace,
            Token::RBRACE => TokenView::RBrace,
            Token::LBRACKET => TokenView::LBracket,
            Token::RBRACKET => TokenView::RBracket,
            Token::FUNCTION => TokenView::Function,
            Token::LET => TokenView::Let,
            Token::TRUE => TokenView::True,
            Token::FALSE => TokenView::False,
            Token::IF => TokenView::If,
            Token::ELSE => TokenView::Else,
            Token::RETURN => TokenView::Return,
        }
    }
}

/// Keyword recognition: the seven reserved spellings map to their dedicated
/// markers; every other spelling is an identifier carrying that spelling
/// verbatim.
pub open spec fn classify(s: Seq<char>) -> TokenView {
    if s == "let"@ {
        TokenView::Let
    } else if s == "fn"@ {
        TokenView::Function
    } else if s == "true"@ {
        TokenView::True
    } else if s == "false"@ {
        TokenView::False
    } else if s == "if"@ {
        TokenView::If
    } else if s == "else"@ {
        TokenView::Else
    } else if s == "return"@ {
        TokenView::Return
    } else {
        TokenView::Ident(s)
    }
}

/// Resolves an identifier-shaped spelling: a reserved keyword yields its
/// marker, anything else an identifier token with the spelling unchanged.
pub fn lookup_ident(ident: String) -> (t: Token)
    ensures
        t@ == classify(ident@),
{
    if str_eq(ident.as_str(), "let") {
        Token::LET
    } else if str_eq(ident.as_str(), "fn") {
        Token::FUNCTION
    } else if str_eq(ident.as_str(), "true") {
        Token::TRUE
    } else if str_eq(ident.as_str(), "false") {
        Token::FALSE
    } else if str_eq(ident.as_str(), "if") {
        Token::IF
    } else if str_eq(ident.as_str(), "else") {
        Token::ELSE
    } else if str_eq(ident.as_str(), "return") {
        Token::RETURN
    } else {
        Token::IDENT(ident)
    }
}

/// Keyword precedence: an identifier token never carries one of the seven
/// reserved spellings, because [`classify`] intercepts exactly those; every
/// other spelling comes back verbatim as an identifier.
pub proof fn lemma_keyword_precedence(s: Seq<char>)
    ensures
        classify(s) matches TokenView::Ident(name) ==> name == s,
        classify(s) is Ident <==> !(s == "let"@ || s == "fn"@ || s == "true"@ || s == "false"@
            || s == "if"@ || s == "else"@ || s == "return"@),
{
}

impl Token {
    /// Whether the token is an identifier.
    pub fn is_ident(&self) -> (r: bool)
        ensures
            r == (self@ is Ident),
    {
        match self {
            Token::IDENT(_) => true,
            _ => false,
        }
    }

    /// Whether the token is an integer literal.
    pub fn is_int(&self) -> (r: bool)
        ensures
            r == (self@ is Int),
    {
        match self {
            Token::INT(_) => true,
            _ => false,
        }
    }

    /// The display form of a token, as [`Token::render`] returns it:
    /// payload variants render their payload (a string literal without its
    /// quotes), single-character markers their literal character, the
    /// two-character operators their two characters, the function keyword its
    /// spelling `fn`, and every remaining marker its symbolic name.
    pub open spec fn render_view(t: TokenView) -> Seq<char> {
        match t {
            TokenView::Illegal => "ILLEGAL"@,
            TokenView::Eof => "EOF"@,
            TokenView::Ident(name) => name,
            TokenView::Int(v) => dec_rep_int(v),
            TokenView::Str(s) => s,
            TokenView::Assign => "="@,
            TokenView::Plus => "+"@,
            TokenView::Minus => "-"@,
            TokenView::Bang => "!"@,
            TokenView::Asterisk => "*"@,
            TokenView::Slash => "/"@,
            TokenView::Lt => "<"@,
            TokenView::Gt => ">"@,
            TokenView::Equal => "=="@,
            TokenView::NotEqual => "!="@,
            TokenView::Comma => ","@,
            TokenView::Semicolon => ";"@,
            TokenView::Colon => ":"@,
            TokenView::LParen => "("@,
            TokenView::RParen => ")"@,
            TokenView::LBrace => "{"@,
            TokenView::RBrace => "}"@,
            TokenView::LBracket => "["@,
            TokenView::RBracket => "]"@,
            TokenView::Function => "fn"@,
            TokenView::Let => "LET"@,
            TokenView::True => "TRUE"@,
            TokenView::False => "FALSE"@,
            TokenView::If => "IF"@,
            TokenView::Else => "ELSE"@,
            TokenView::Return => "RETURN"@,
        }
    }

    /// A stable human-readable form of the token, for diagnostics and
    /// printing. It is display only: a string literal renders without its
    /// quotes, so the result is not guaranteed to lex back to the same token.
    pub fn render(&self) -> (r: String)
        ensures
            r@ == Token::render_view(self@),
    {
        match self {
            Token::ILLEGAL => String::from_str("ILLEGAL"),
            Token::EOF => String::from_str("EOF"),
            Token::IDENT(name) => name.clone(),
            Token::INT(v) => i64_to_decimal(*v),
            Token::STRING(s) => s.clone(),
            Token::ASSIGN => String::from_str("="),
            Token::PLUS => String::from_str("+"),
            Token::MINUS => String::from_str("-"),
            Token::BANG => String::from_str("!"),
            Token::ASTERISK => String::from_str("*"),
            Token::SLASH => String::from_str("/"),
            Token::LT => String::from_str("<"),
            Token::GT => String::from_str(">"),
            Token::EQ => String::from_str("=="),
            Token::NEQ => String::from_str("!="),
            Token::COMMA => String::from_str(","),
            Token::SEMICOLON => String::from_str(";"),
            Token::COLON => String::from_str(":"),
            Token::LPAREN => String::from_str("("),
            Token::RPAREN => String::from_str(")"),
            Token::LBRACE => String::from_str("{"),
            Token::RBRACE => String::from_str("}"),
            Token::LBRACKET => String::from_str("["),
            Token::RBRACKET => String::from_str("]"),
            Token::FUNCTION => String::from_str("fn"),
            Token::LET => String::from_str("LET"),
            Token::TRUE => String::from_str("TRUE"),
            Token::FALSE => String::from_str("FALSE"),
            Token::IF => String::from_str("IF"),
            Token::ELSE => String::from_str("ELSE"),
            Token::RETURN => String::from_str("RETURN"),
        }
    }
}

} // verus!
