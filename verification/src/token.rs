//! Tokens: the closed set of lexical kinds, and the token record the
//! scanner produces and the parser consumes.
//!
//! Conventions of the language, fixed here once for scanner and parser
//! alike: `==` tests equality, `=` is assignment and declaration
//! initialization, `:=` is scanned as its own kind, blocks are `{` ... `}`,
//! and the loop statement is spelled `while`.

use vstd::prelude::*;
use crate::ieee32::real_text_of;
use crate::ieee32::real_text;

verus! {

/// The kind of a token.  Literal kinds carry their decoded value; a
/// real literal carries the IEEE-754 binary32 bit pattern of its value.
pub enum TokenType {
    LParen,
    RParen,
    LBrace,
    RBrace,
    Comma,
    Dot,
    Minus,
    Plus,
    Semicolon,
    Slash,
    Star,
    LetEqual,
    Equal,
    EqualEqual,
    Less,
    LessEqual,
    Greater,
    GreaterEqual,
    Bang,
    BangEqual,
    Ident,
    StrLit(String),
    RealLit(u32),
    IntLit(u32),
    Begin,
    End,
    Procedure,
    Function,
    Return,
    If,
    Else,
    For,
    Repeat,
    Until,
    While,
    Do,
    To,
    Program,
    True,
    False,
    And,
    Or,
    Nil,
    Print,
    Real,
    Int,
    Str,
    Bool,
    EOF,
}

/// The mathematical model of a token kind.
pub enum TokenTypeV {
    LParen,
    RParen,
    LBrace,
    RBrace,
    Comma,
    Dot,
    Minus,
    Plus,
    Semicolon,
    Slash,
    Star,
    LetEqual,
    Equal,
    EqualEqual,
    Less,
    LessEqual,
    Greater,
    GreaterEqual,
    Bang,
    BangEqual,
    Ident,
    StrLit(Seq<char>),
    RealLit(u32),
    IntLit(u32),
    Begin,
    End,
    Procedure,
    Function,
    Return,
    If,
    Else,
    For,
    Repeat,
    Until,
    While,
    Do,
    To,
    Program,
    True,
    False,
    And,
    Or,
    Nil,
    Print,
    Real,
    Int,
    Str,
    Bool,
    EOF,
}

impl View for TokenType {
    type V = TokenTypeV;

    open spec fn view(&self) -> TokenTypeV {
        match self {
            TokenType::LParen => TokenTypeV::LParen,
            TokenType::RParen => TokenTypeV::RParen,
            TokenType::LBrace => TokenTypeV::LBrace,
            TokenType::RBrace => TokenTypeV::RBrace,
            TokenType::Comma => TokenTypeV::Comma,
            TokenType::Dot => TokenTypeV::Dot,
            TokenType::Minus => TokenTypeV::Minus,
            TokenType::Plus => TokenTypeV::Plus,
            TokenType::Semicolon => TokenTypeV::Semicolon,
            TokenType::Slash => TokenTypeV::Slash,
            TokenType::Star => TokenTypeV::Star,
            TokenType::LetEqual => TokenTypeV::LetEqual,
            TokenType::Equal => TokenTypeV::Equal,
            TokenType::EqualEqual => TokenTypeV::EqualEqual,
            TokenType::Less => TokenTypeV::Less,
            TokenType::LessEqual => TokenTypeV::LessEqual,
            TokenType::Greater => TokenTypeV::Greater,
            TokenType::GreaterEqual => TokenTypeV::GreaterEqual,
            TokenType::Bang => TokenTypeV::Bang,
            TokenType::BangEqual => TokenTypeV::BangEqual,
            TokenType::Ident => TokenTypeV::Ident,
            TokenType::StrLit(s) => TokenTypeV::StrLit(s@),
            TokenType::RealLit(r) => TokenTypeV::RealLit(*r),
            TokenType::IntLit(i) => TokenTypeV::IntLit(*i),
            TokenType::Begin => TokenTypeV::Begin,
            TokenType::End => TokenTypeV::End,
            TokenType::Procedure => TokenTypeV::Procedure,
            TokenType::Function => TokenTypeV::Function,
            TokenType::Return => TokenTypeV::Return,
            TokenType::If => TokenTypeV::If,
            TokenType::Else => TokenTypeV::Else,
            TokenType::For => TokenTypeV::For,
            TokenType::Repeat => TokenTypeV::Repeat,
            TokenType::Until => TokenTypeV::Until,
            TokenType::While => TokenTypeV::While,
            TokenType::Do => TokenTypeV::Do,
            TokenType::To => TokenTypeV::To,
            TokenType::Program => TokenTypeV::Program,
            TokenType::True => TokenTypeV::True,
            TokenType::False => TokenTypeV::False,
            TokenType::And => TokenTypeV::And,
            TokenType::Or => TokenTypeV::Or,
            TokenType::Nil => TokenTypeV::Nil,
            TokenType::Print => TokenTypeV::Print,
            TokenType::Real => TokenTypeV::Real,
            TokenType::Int => TokenTypeV::Int,
            TokenType::Str => TokenTypeV::Str,
            TokenType::Bool => TokenTypeV::Bool,
            TokenType::EOF => TokenTypeV::EOF,
        }
    }
}

impl Clone for TokenType {
    fn clone(&self) -> (r: Self)
        ensures
            r@ == self@,
    {
        match self {
            TokenType::LParen => TokenType::LParen,
            TokenType::RParen => TokenType::RParen,
            TokenType::LBrace => TokenType::LBrace,
            TokenType::RBrace => TokenType::RBrace,
            TokenType::Comma => TokenType::Comma,
            TokenType::Dot => TokenType::Dot,
            TokenType::Minus => TokenType::Minus,
            TokenType::Plus => TokenType::Plus,
            TokenType::Semicolon => TokenType::Semicolon,
            TokenType::Slash => TokenType::Slash,
            TokenType::Star => TokenType::Star,
            TokenType::LetEqual => TokenType::LetEqual,
            TokenType::Equal => TokenType::Equal,
            TokenType::EqualEqual => TokenType::EqualEqual,
            TokenType::Less => TokenType::Less,
            TokenType::LessEqual => TokenType::LessEqual,
            TokenType::Greater => TokenType::Greater,
            TokenType::GreaterEqual => TokenType::GreaterEqual,
            TokenType::Bang => TokenType::Bang,
            TokenType::BangEqual => TokenType::BangEqual,
            TokenType::Ident => TokenType::Ident,
            TokenType::StrLit(s) => TokenType::StrLit(s.clone()),
            TokenType::RealLit(r) => TokenType::RealLit(*r),
            TokenType::IntLit(i) => TokenType::IntLit(*i),
            TokenType::Begin => TokenType::Begin,
            TokenType::End => TokenType::End,
            TokenType::Procedure => TokenType::Procedure,
            TokenType::Function => TokenType::Function,
            TokenType::Return => TokenType::Return,
            TokenType::If => TokenType::If,
            TokenType::Else => TokenType::Else,
            TokenType::For => TokenType::For,
            TokenType::Repeat => TokenType::Repeat,
            TokenType::Until => TokenType::Until,
            TokenType::While => TokenType::While,
            TokenType::Do => TokenType::Do,
            TokenType::To => TokenType::To,
            TokenType::Program => TokenType::Program,
            TokenType::True => TokenType::True,
            TokenType::False => TokenType::False,
            TokenType::And => TokenType::And,
            TokenType::Or => TokenType::Or,
            TokenType::Nil => TokenType::Nil,
            TokenType::Print => TokenType::Print,
            TokenType::Real => TokenType::Real,
            TokenType::Int => TokenType::Int,
            TokenType::Str => TokenType::Str,
            TokenType::Bool => TokenType::Bool,
            TokenType::EOF => TokenType::EOF,
        }
    }
}

/// A token: its kind, the source slice that produced it, and the 1-based
/// line number it was found on.
pub struct Token {
    pub t_type: TokenType,
    pub lexeme: String,
    pub line: u32,
}

/// The mathematical model of a token.
pub struct TokenV {
    pub t_type: TokenTypeV,
    pub lexeme: Seq<char>,
    pub line: u32,
}

impl View for Token {
    type V = TokenV;

    open spec fn view(&self) -> TokenV {
        TokenV { t_type: self.t_type@, lexeme: self.lexeme@, line: self.line }
    }
}

impl Clone for Token {
    fn clone(&self) -> (r: Self)
        ensures
            r@ == self@,
    {
        Token { t_type: self.t_type.clone(), lexeme: self.lexeme.clone(), line: self.line }
    }
}

/// The textual form of a token: the decoded value for a real or string
/// literal, the lexeme for everything else.
pub open spec fn token_text(t: TokenV) -> Seq<char> {
    match t.t_type {
        TokenTypeV::RealLit(r) => real_text_of(r),
        TokenTypeV::StrLit(s) => s,
        _ => t.lexeme,
    }
}

impl Token {
    pub fn new(t_type: TokenType, lexeme: String, line: u32) -> (r: Self)
        ensures
            r@ == (TokenV { t_type: t_type@, lexeme: lexeme@, line: line }),
    {
        Token { t_type, lexeme, line }
    }

    /// Renders this token for display.
    pub fn to_string(&self) -> (r: String)
        ensures
            r@ == token_text(self@),
    {
        match &self.t_type {
            TokenType::RealLit(r) => real_text(*r),
            TokenType::StrLit(s) => s.clone(),
            _ => self.lexeme.clone(),
        }
    }
}

} // verus!
