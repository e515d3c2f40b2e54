//! The tokens that the lexer produces.

use vstd::prelude::*;
use crate::text::{int_text, push_int};

verus! {

/// A lexical token. Tokens carry no source position.
#[derive(Debug, PartialEq, Eq, Hash)]
pub enum Token {
    Illegal(char),
    Eof,
    Ident(String),
    Int(i64),
    Assign,
    Plus,
    Minus,
    Bang,
    Asterisk,
    Slash,
    Eq,
    NotEq,
    LessThan,
    GreaterThan,
    Comma,
    Semicolon,
    LParen,
    RParen,
    LBrace,
    RBrace,
    Function,
    Let,
    True,
    False,
    If,
    Else,
    Return,
}

/// The mathematical value of a token: an identifier is the sequence of its
/// characters.
pub enum TokenView {
    Illegal(char),
    Eof,
    Ident(Seq<char>),
    Int(i64),
    Assign,
    Plus,
    Minus,
    Bang,
    Asterisk,
    Slash,
    Eq,
    NotEq,
    LessThan,
    GreaterThan,
    Comma,
    Semicolon,
    LParen,
    RParen,
    LBrace,
    RBrace,
    Function,
    Let,
    True,
    False,
    If,
    Else,
    Return,
}

impl View for Token {
    type V = TokenView;

    open spec fn view(&self) -> TokenView {
        match self {
            Token::Illegal(c) => TokenView::Illegal(*c),
            Token::Eof => TokenView::Eof,
            Token::Ident(name) => TokenView::Ident(name@),
            Token::Int(n) => TokenView::Int(*n),
            Token::Assign => TokenView::Assign,
            Token::Plus => TokenView::Plus,
            Token::Minus => TokenView::Minus,
            Token::Bang => TokenView::Bang,
            Token::Asterisk => TokenView::Asterisk,
            Token::Slash => TokenView::Slash,
            Token::Eq => TokenView::Eq,
            Token::NotEq => TokenView::NotEq,
            Token::LessThan => TokenView::LessThan,
            Token::GreaterThan => TokenView::GreaterThan,
            Token::Comma => TokenView::Comma,
            Token::Semicolon => TokenView::Semicolon,
            Token::LParen => TokenView::LParen,
            Token::RParen => TokenView::RParen,
            Token::LBrace => TokenView::LBrace,
            Token::RBrace => TokenView::RBrace,
            Token::Function => TokenView::Function,
            Token::Let => TokenView::Let,
            Token::True => TokenView::True,
            Token::False => TokenView::False,
            Token::If => TokenView::If,
            Token::Else => TokenView::Else,
            Token::Return => TokenView::Return,
        }
    }
}

/// The text that a token is shown as: an identifier by its name, an integer
/// in decimal, an operator or delimiter by its sign, anything else by an
/// upper-case word.
pub open spec fn token_text(t: TokenView) -> Seq<char> {
    match t {
        TokenView::Illegal(_) => "ILLEGAL"@,
        TokenView::Eof => "EOF"@,
        TokenView::Ident(name) => name,
        TokenView::Int(n) => int_text(n as int),
        TokenView::Assign => "ASSIGN"@,
        TokenView::Plus => "+"@,
        TokenView::Minus => "-"@,
        TokenView::Bang => "!"@,
        TokenView::Asterisk => "*"@,
        TokenView::Slash => "/"@,
        TokenView::Eq => "=="@,
        TokenView::NotEq => "!="@,
        TokenView::LessThan => "<"@,
        TokenView::GreaterThan => ">"@,
        TokenView::Comma => ","@,
        TokenView::Semicolon => ";"@,
        TokenView::LParen => "("@,
        TokenView::RParen => ")"@,
        TokenView::LBrace => "{"@,
        TokenView::RBrace => "}"@,
        TokenView::Function => "FUNCTION"@,
        TokenView::Let => "LET"@,
        TokenView::True => "TRUE"@,
        TokenView::False => "FALSE"@,
        TokenView::If => "IF"@,
        TokenView::Else => "ELSE"@,
        TokenView::Return => "RETURN"@,
    }
}

impl Token {
    /// The text that the token is shown as.
    pub fn to_string(&self) -> (text: String)
        ensures
            text@ == token_text(self@),
    {
        match self {
            Token::Illegal(_) => String::from_str("ILLEGAL"),
            Token::Eof => String::from_str("EOF"),
            Token::Ident(name) => name.clone(),
            Token::Int(n) => {
                let mut text = String::new();
                push_int(&mut text, *n);
                assert(text@ =~= int_text(*n as int));
                text
            },
            Token::Assign => String::from_str("ASSIGN"),
            Token::Plus => String::from_str("+"),
            Token::Minus => String::from_str("-"),
            Token::Bang => String::from_str("!"),
            Token::Asterisk => String::from_str("*"),
            Token::Slash => String::from_str("/"),
            Token::Eq => String::from_str("=="),
            Token::NotEq => String::from_str("!="),
            Token::LessThan => String::from_str("<"),
            Token::GreaterThan => String::from_str(">"),
            Token::Comma => String::from_str(","),
            Token::Semicolon => String::from_str(";"),
            Token::LParen => String::from_str("("),
            Token::RParen => String::from_str(")"),
            Token::LBrace => String::from_str("{"),
            Token::RBrace => String::from_str("}"),
            Token::Function => String::from_str("FUNCTION"),
            Token::Let => String::from_str("LET"),
            Token::True => String::from_str("TRUE"),
            Token::False => String::from_str("FALSE"),
            Token::If => String::from_str("IF"),
            Token::Else => String::from_str("ELSE"),
            Token::Return => String::from_str("RETURN"),
        }
    }

    /// Whether two tokens are the same: of one kind and, where they hold a
    /// name, a number or a character, with the same one.
    pub fn same(&self, other: &Token) -> (b: bool)
        ensures
            b == (self@ == other@),
    {
        match (self, other) {
            (Token::Illegal(a), Token::Illegal(b)) => *a == *b,
            (Token::Eof, Token::Eof) => true,
            (Token::Ident(a), Token::Ident(b)) => *a == *b,
            (Token::Int(a), Token::Int(b)) => *a == *b,
            (Token::Assign, Token::Assign) => true,
            (Token::Plus, Token::Plus) => true,
            (Token::Minus, Token::Minus) => true,
            (Token::Bang, Token::Bang) => true,
            (Token::Asterisk, Token::Asterisk) => true,
            (Token::Slash, Token::Slash) => true,
            (Token::Eq, Token::Eq) => true,
            (Token::NotEq, Token::NotEq) => true,
            (Token::LessThan, Token::LessThan) => true,
            (Token::GreaterThan, Token::GreaterThan) => true,
            (Token::Comma, Token::Comma) => true,
            (Token::Semicolon, Token::Semicolon) => true,
            (Token::LParen, Token::LParen) => true,
            (Token::RParen, Token::RParen) => true,
            (Token::LBrace, Token::LBrace) => true,
            (Token::RBrace, Token::RBrace) => true,
            (Token::Function, Token::Function) => true,
            (Token::Let, Token::Let) => true,
            (Token::True, Token::True) => true,
            (Token::False, Token::False) => true,
            (Token::If, Token::If) => true,
            (Token::Else, Token::Else) => true,
            (Token::Return, Token::Return) => true,
            _ => false,
        }
    }
}

impl Clone for Token {
    fn clone(&self) -> (res: Token)
        ensures
            res@ == self@,
    {
        match self {
            Token::Illegal(c) => Token::Illegal(*c),
            Token::Eof => Token::Eof,
            Token::Ident(name) => Token::Ident(name.clone()),
            Token::Int(n) => Token::Int(*n),
            Token::Assign => Token::Assign,
            Token::Plus => Token::Plus,
            Token::Minus => Token::Minus,
            Token::Bang => Token::Bang,
            Token::Asterisk => Token::Asterisk,
            Token::Slash => Token::Slash,
            Token::Eq => Token::Eq,
            Token::NotEq => Token::NotEq,
            Token::LessThan => Token::LessThan,
            Token::GreaterThan => Token::GreaterThan,
            Token::Comma => Token::Comma,
            Token::Semicolon => Token::Semicolon,
            Token::LParen => Token::LParen,
            Token::RParen => Token::RParen,
            Token::LBrace => Token::LBrace,
            Token::RBrace => Token::RBrace,
            Token::Function => Token::Function,
            Token::Let => Token::Let,
            Token::True => Token::True,
            Token::False => Token::False,
            Token::If => Token::If,
            Token::Else => Token::Else,
            Token::Return => Token::Return,
        }
    }
}

} // verus!
