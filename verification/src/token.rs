//! Tokens: the units that the lexer hands to the parser.
//!
//! A number literal is kept as the exact text of its lexeme (digits with at
//! most one decimal point); turning it into a numeric value is left to
//! whoever evaluates the program.
use vstd::prelude::*;

verus! {

/// The kind of a token, with its payload where it has one.
#[derive(Debug, PartialEq)]
pub enum TokenKind {
    Number(String),
    String(String),
    Ident(String),
    Let,
    Fn,
    Print,
    Return,
    True,
    False,
    If,
    Else,
    While,
    And,
    Or,
    Plus,
    Minus,
    Star,
    Slash,
    Percent,
    EqEq,
    BangEq,
    Lt,
    Gt,
    LtEq,
    GtEq,
    Assign,
    Bang,
    LParen,
    RParen,
    LBrace,
    RBrace,
    Comma,
    Semicolon,
    Colon,
    Eof,
}

/// The mathematical value of a token kind: payloads are character sequences.
pub enum SpecTokenKind {
    Number(Seq<char>),
    String(Seq<char>),
    Ident(Seq<char>),
    Let,
    Fn,
    Print,
    Return,
    True,
    False,
    If,
    Else,
    While,
    And,
    Or,
    Plus,
    Minus,
    Star,
    Slash,
    Percent,
    EqEq,
    BangEq,
    Lt,
    Gt,
    LtEq,
    GtEq,
    Assign,
    Bang,
    LParen,
    RParen,
    LBrace,
    RBrace,
    Comma,
    Semicolon,
    Colon,
    Eof,
}

impl View for TokenKind {
    type V = SpecTokenKind;

    open spec fn view(&self) -> SpecTokenKind {
        match self {
            TokenKind::Number(s) => SpecTokenKind::Number(s@),
            TokenKind::String(s) => SpecTokenKind::String(s@),
            TokenKind::Ident(s) => SpecTokenKind::Ident(s@),
            TokenKind::Let => SpecTokenKind::Let,
            TokenKind::Fn => SpecTokenKind::Fn,
            TokenKind::Print => SpecTokenKind::Print,
            TokenKind::Return => SpecTokenKind::Return,
            TokenKind::True => SpecTokenKind::True,
            TokenKind::False => SpecTokenKind::False,
            TokenKind::If => SpecTokenKind::If,
            TokenKind::Else => SpecTokenKind::Else,
            TokenKind::While => SpecTokenKind::While,
            TokenKind::And => SpecTokenKind::And,
            TokenKind::Or => SpecTokenKind::Or,
            TokenKind::Plus => SpecTokenKind::Plus,
            TokenKind::Minus => SpecTokenKind::Minus,
            TokenKind::Star => SpecTokenKind::Star,
            TokenKind::Slash => SpecTokenKind::Slash,
            TokenKind::Percent => SpecTokenKind::Percent,
            TokenKind::EqEq => SpecTokenKind::EqEq,
            TokenKind::BangEq => SpecTokenKind::BangEq,
            TokenKind::Lt => SpecTokenKind::Lt,
            TokenKind::Gt => SpecTokenKind::Gt,
            TokenKind::LtEq => SpecTokenKind::LtEq,
            TokenKind::GtEq => SpecTokenKind::GtEq,
            TokenKind::Assign => SpecTokenKind::Assign,
            TokenKind::Bang => SpecTokenKind::Bang,
            TokenKind::LParen => SpecTokenKind::LParen,
            TokenKind::RParen => SpecTokenKind::RParen,
            TokenKind::LBrace => SpecTokenKind::LBrace,
            TokenKind::RBrace => SpecTokenKind::RBrace,
            TokenKind::Comma => SpecTokenKind::Comma,
            TokenKind::Semicolon => SpecTokenKind::Semicolon,
            TokenKind::Colon => SpecTokenKind::Colon,
            TokenKind::Eof => SpecTokenKind::Eof,
        }
    }
}

impl Clone for TokenKind {
    fn clone(&self) -> (res: TokenKind)
        ensures
            res == *self,
    {
        match self {
            TokenKind::Number(s) => TokenKind::Number(s.clone()),
            TokenKind::String(s) => TokenKind::String(s.clone()),
            TokenKind::Ident(s) => TokenKind::Ident(s.clone()),
            TokenKind::Let => TokenKind::Let,
            TokenKind::Fn => TokenKind::Fn,
            TokenKind::Print => TokenKind::Print,
            TokenKind::Return => TokenKind::Return,
            TokenKind::True => TokenKind::True,
            TokenKind::False => TokenKind::False,
            TokenKind::If => TokenKind::If,
            TokenKind::Else => TokenKind::Else,
            TokenKind::While => TokenKind::While,
            TokenKind::And => TokenKind::And,
            TokenKind::Or => TokenKind::Or,
            TokenKind::Plus => TokenKind::Plus,
            TokenKind::Minus => TokenKind::Minus,
            TokenKind::Star => TokenKind::Star,
            TokenKind::Slash => TokenKind::Slash,
            TokenKind::Percent => TokenKind::Percent,
            TokenKind::EqEq => TokenKind::EqEq,
            TokenKind::BangEq => TokenKind::BangEq,
            TokenKind::Lt => TokenKind::Lt,
            TokenKind::Gt => TokenKind::Gt,
            TokenKind::LtEq => TokenKind::LtEq,
            TokenKind::GtEq => TokenKind::GtEq,
            TokenKind::Assign => TokenKind::Assign,
            TokenKind::Bang => TokenKind::Bang,
            TokenKind::LParen => TokenKind::LParen,
            TokenKind::RParen => TokenKind::RParen,
            TokenKind::LBrace => TokenKind::LBrace,
            TokenKind::RBrace => TokenKind::RBrace,
            TokenKind::Comma => TokenKind::Comma,
            TokenKind::Semicolon => TokenKind::Semicolon,
            TokenKind::Colon => TokenKind::Colon,
            TokenKind::Eof => TokenKind::Eof,
        }
    }
}

/// A token with the 1-based line and column at which it starts.
#[derive(Debug, PartialEq)]
pub struct Token {
    pub kind: TokenKind,
    pub line: usize,
    pub col: usize,
}

/// The mathematical value of a token.
pub struct SpecToken {
    pub kind: SpecTokenKind,
    pub line: int,
    pub col: int,
}

impl View for Token {
    type V = SpecToken;

    open spec fn view(&self) -> SpecToken {
        SpecToken { kind: self.kind@, line: self.line as int, col: self.col as int }
    }
}

impl Clone for Token {
    fn clone(&self) -> (res: Token)
        ensures
            res == *self,
    {
        Token { kind: self.kind.clone(), line: self.line, col: self.col }
    }
}

/// The views of a sequence of tokens, one for one.
pub open spec fn tokens_view(tokens: Seq<Token>) -> Seq<SpecToken> {
    tokens.map_values(|t: Token| t@)
}

impl Token {
    pub fn new(kind: TokenKind, line: usize, col: usize) -> (tok: Token)
        ensures
            tok.kind == kind,
            tok.line == line,
            tok.col == col,
    {
        Token { kind, line, col }
    }
}

} // verus!
