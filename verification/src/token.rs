//! Token model: a classified lexeme together with the exact source substring
//! it was derived from and its 1-based source line.

use vstd::prelude::*;

verus! {

/// Category of a token. Every variant matches one language feature.
/// Literal categories carry their decoded payload: a string literal carries
/// the text strictly between its quotes, a number literal carries its value
/// as a canonical decimal digit string, and an identifier carries its raw
/// lexeme text.
#[derive(Debug)]
pub enum TokenType {
    // Single-character tokens
    LeftParen,
    RightParen,
    LeftBrace,
    RightBrace,
    Comma,
    Dot,
    Minus,
    Plus,
    Semicolon,
    Slash,
    Star,
    // One or two character tokens
    Bang,
    BangEqual,
    Equal,
    EqualEqual,
    Greater,
    GreaterEqual,
    Less,
    LessEqual,
    // Literals
    Identifier(String),
    StringLiteral(String),
    NumberLiteral(String),
    // Keywords
    And,
    Class,
    Else,
    False,
    Fun,
    For,
    If,
    Nil,
    Or,
    Print,
    Return,
    Super,
    This,
    True,
    Var,
    While,
    // End of input
    Eof,
}

/// Mathematical model of a token category: the same closed enumeration with
/// every text payload abstracted to its character sequence.
pub enum SpecTokenType {
    LeftParen,
    RightParen,
    LeftBrace,
    RightBrace,
    Comma,
    Dot,
    Minus,
    Plus,
    Semicolon,
    Slash,
    Star,
    Bang,
    BangEqual,
    Equal,
    EqualEqual,
    Greater,
    GreaterEqual,
    Less,
    LessEqual,
    Identifier(Seq<char>),
    StringLiteral(Seq<char>),
    NumberLiteral(Seq<char>),
    And,
    Class,
    Else,
    False,
    Fun,
    For,
    If,
    Nil,
    Or,
    Print,
    Return,
    Super,
    This,
    True,
    Var,
    While,
    Eof,
}

impl View for TokenType {
    type V = SpecTokenType;

    open spec fn view(&self) -> SpecTokenType {
        match self {
            TokenType::LeftParen => SpecTokenType::LeftParen,
            TokenType::RightParen => SpecTokenType::RightParen,
            TokenType::LeftBrace => SpecTokenType::LeftBrace,
            TokenType::RightBrace => SpecTokenType::RightBrace,
            TokenType::Comma => SpecTokenType::Comma,
            TokenType::Dot => SpecTokenType::Dot,
            TokenType::Minus => SpecTokenType::Minus,
            TokenType::Plus => SpecTokenType::Plus,
            TokenType::Semicolon => SpecTokenType::Semicolon,
            TokenType::Slash => SpecTokenType::Slash,
            TokenType::Star => SpecTokenType::Star,
            TokenType::Bang => SpecTokenType::Bang,
            TokenType::BangEqual => SpecTokenType::BangEqual,
            TokenType::Equal => SpecTokenType::Equal,
            TokenType::EqualEqual => SpecTokenType::EqualEqual,
            TokenType::Greater => SpecTokenType::Greater,
            TokenType::GreaterEqual => SpecTokenType::GreaterEqual,
            TokenType::Less => SpecTokenType::Less,
            TokenType::LessEqual => SpecTokenType::LessEqual,
            TokenType::Identifier(s) => SpecTokenType::Identifier(s@),
            TokenType::StringLiteral(s) => SpecTokenType::StringLiteral(s@),
            TokenType::NumberLiteral(s) => SpecTokenType::NumberLiteral(s@),
            TokenType::And => SpecTokenType::And,
            TokenType::Class => SpecTokenType::Class,
            TokenType::Else => SpecTokenType::Else,
            TokenType::False => SpecTokenType::False,
            TokenType::Fun => SpecTokenType::Fun,
            TokenType::For => SpecTokenType::For,
            TokenType::If => SpecTokenType::If,
            TokenType::Nil => SpecTokenType::Nil,
            TokenType::Or => SpecTokenType::Or,
            TokenType::Print => SpecTokenType::Print,
            TokenType::Return => SpecTokenType::Return,
            TokenType::Super => SpecTokenType::Super,
            TokenType::This => SpecTokenType::This,
            TokenType::True => SpecTokenType::True,
            TokenType::Var => SpecTokenType::Var,
            TokenType::While => SpecTokenType::While,
            TokenType::Eof => SpecTokenType::Eof,
        }
    }
}

impl Clone for TokenType {
    /// Cloning a token category keeps the category and its payload.
    fn clone(&self) -> (r: Self)
        ensures
            r@ == self@,
    {
        match self {
            TokenType::LeftParen => TokenType::LeftParen,
            TokenType::RightParen => TokenType::RightParen,
            TokenType::LeftBrace => TokenType::LeftBrace,
            TokenType::RightBrace => TokenType::RightBrace,
            TokenType::Comma => TokenType::Comma,
            TokenType::Dot => TokenType::Dot,
            TokenType::Minus => TokenType::Minus,
            TokenType::Plus => TokenType::Plus,
            TokenType::Semicolon => TokenType::Semicolon,
            TokenType::Slash => TokenType::Slash,
            TokenType::Star => TokenType::Star,
            TokenType::Bang => TokenType::Bang,
            TokenType::BangEqual => TokenType::BangEqual,
            TokenType::Equal => TokenType::Equal,
            TokenType::EqualEqual => TokenType::EqualEqual,
            TokenType::Greater => TokenType::Greater,
            TokenType::GreaterEqual => TokenType::GreaterEqual,
            TokenType::Less => TokenType::Less,
            TokenType::LessEqual => TokenType::LessEqual,
            TokenType::Identifier(s) => TokenType::Identifier(s.clone()),
            TokenType::StringLiteral(s) => TokenType::StringLiteral(s.clone()),
            TokenType::NumberLiteral(s) => TokenType::NumberLiteral(s.clone()),
            TokenType::And => TokenType::And,
            TokenType::Class => TokenType::Class,
            TokenType::Else => TokenType::Else,
            TokenType::False => TokenType::False,
            TokenType::Fun => TokenType::Fun,
            TokenType::For => TokenType::For,
            TokenType::If => TokenType::If,
            TokenType::Nil => TokenType::Nil,
            TokenType::Or => TokenType::Or,
            TokenType::Print => TokenType::Print,
            TokenType::Return => TokenType::Return,
            TokenType::Super => TokenType::Super,
            TokenType::This => TokenType::This,
            TokenType::True => TokenType::True,
            TokenType::Var => TokenType::Var,
            TokenType::While => TokenType::While,
            TokenType::Eof => TokenType::Eof,
        }
    }
}

/// Bundled lexeme with information around it. The lexeme is an owned copy of
/// the exact source substring the token was derived from; the line is
/// 1-based and non-decreasing across a scanned token sequence.
#[derive(Debug)]
pub struct Token {
    pub token_type: TokenType,
    pub lexeme: String,
    pub line: usize,
}

/// Mathematical model of a token.
pub struct SpecToken {
    pub token_type: SpecTokenType,
    pub lexeme: Seq<char>,
    pub line: nat,
}

impl View for Token {
    type V = SpecToken;

    open spec fn view(&self) -> SpecToken {
        SpecToken { token_type: self.token_type@, lexeme: self.lexeme@, line: self.line as nat }
    }
}

impl Token {
    /// Builds a token from its category, its exact source substring, and its
    /// source line.
    pub fn new(token_type: TokenType, lexeme: &str, line: usize) -> (t: Token)
        ensures
            t@ == (SpecToken { token_type: token_type@, lexeme: lexeme@, line: line as nat }),
    {
        Token { token_type, lexeme: lexeme.to_owned(), line }
    }
}

impl Clone for Token {
    /// Cloning a token keeps its category, lexeme and line.
    fn clone(&self) -> (r: Self)
        ensures
            r@ == self@,
    {
        Token {
            token_type: self.token_type.clone(),
            lexeme: self.lexeme.clone(),
            line: self.line,
        }
    }
}

} // verus!
