//! Tokens of the language and their mathematical view.
use vstd::prelude::*;

verus! {

/// A token produced by the lexer.
///
/// A float literal carries the IEEE-754 bit pattern of its value (see
/// `Lexer::next_token`), so that tokens hold no floating-point number.
#[derive(Debug)]
pub enum Token {
    Let,
    Function,
    Return,
    Ident(String),
    Number(i32),
    FloatLiteral(u64),
    StringLiteral(String),
    Plus,
    Minus,
    Multiply,
    Divide,
    Assign,
    EqualEqual,
    NotEqual,
    Greater,
    GreaterEqual,
    Less,
    LessEqual,
    Semicolon,
    LParen,
    RParen,
    LBrace,
    RBrace,
    Comma,
    Colon,
    IntType,
    FloatType,
    BoolType,
    StringType,
    Else,
    If,
    Eof,
}

/// The mathematical value of a token: text is a sequence of characters.
pub enum TokenV {
    Let,
    Function,
    Return,
    Ident(Seq<char>),
    Number(i32),
    FloatLiteral(u64),
    StringLiteral(Seq<char>),
    Plus,
    Minus,
    Multiply,
    Divide,
    Assign,
    EqualEqual,
    NotEqual,
    Greater,
    GreaterEqual,
    Less,
    LessEqual,
    Semicolon,
    LParen,
    RParen,
    LBrace,
    RBrace,
    Comma,
    Colon,
    IntType,
    FloatType,
    BoolType,
    StringType,
    Else,
    If,
    Eof,
}

impl View for Token {
    type V = TokenV;

    open spec fn view(&self) -> TokenV {
        match self {
            Token::Let => TokenV::Let,
            Token::Function => TokenV::Function,
            Token::Return => TokenV::Return,
            Token::Ident(s) => TokenV::Ident(s@),
            Token::Number(n) => TokenV::Number(*n),
            Token::FloatLiteral(b) => TokenV::FloatLiteral(*b),
            Token::StringLiteral(s) => TokenV::StringLiteral(s@),
            Token::Plus => TokenV::Plus,
            Token::Minus => TokenV::Minus,
            Token::Multiply => TokenV::Multiply,
            Token::Divide => TokenV::Divide,
            Token::Assign => TokenV::Assign,
            Token::EqualEqual => TokenV::EqualEqual,
            Token::NotEqual => TokenV::NotEqual,
            Token::Greater => TokenV::Greater,
            Token::GreaterEqual => TokenV::GreaterEqual,
            Token::Less => TokenV::Less,
            Token::LessEqual => TokenV::LessEqual,
            Token::Semicolon => TokenV::Semicolon,
            Token::LParen => TokenV::LParen,
            Token::RParen => TokenV::RParen,
            Token::LBrace => TokenV::LBrace,
            Token::RBrace => TokenV::RBrace,
            Token::Comma => TokenV::Comma,
            Token::Colon => TokenV::Colon,
            Token::IntType => TokenV::IntType,
            Token::FloatType => TokenV::FloatType,
            Token::BoolType => TokenV::BoolType,
            Token::StringType => TokenV::StringType,
            Token::Else => TokenV::Else,
            Token::If => TokenV::If,
            Token::Eof => TokenV::Eof,
        }
    }
}

/// The views of a sequence of tokens.
pub open spec fn token_views(ts: Seq<Token>) -> Seq<TokenV> {
    ts.map_values(|t: Token| t@)
}

impl Token {
    /// A copy of this token.
    pub fn duplicate(&self) -> (r: Token)
        ensures
            r@ == self@,
    {
        match self {
            Token::Let => Token::Let,
            Token::Function => Token::Function,
            Token::Return => Token::Return,
            Token::Ident(s) => Token::Ident(s.clone()),
            Token::Number(n) => Token::Number(*n),
            Token::FloatLiteral(b) => Token::FloatLiteral(*b),
            Token::StringLiteral(s) => Token::StringLiteral(s.clone()),
            Token::Plus => Token::Plus,
            Token::Minus => Token::Minus,
            Token::Multiply => Token::Multiply,
            Token::Divide => Token::Divide,
            Token::Assign => Token::Assign,
            Token::EqualEqual => Token::EqualEqual,
            Token::NotEqual => Token::NotEqual,
            Token::Greater => Token::Greater,
            Token::GreaterEqual => Token::GreaterEqual,
            Token::Less => Token::Less,
            Token::LessEqual => Token::LessEqual,
            Token::Semicolon => Token::Semicolon,
            Token::LParen => Token::LParen,
            Token::RParen => Token::RParen,
            Token::LBrace => Token::LBrace,
            Token::RBrace => Token::RBrace,
            Token::Comma => Token::Comma,
            Token::Colon => Token::Colon,
            Token::IntType => Token::IntType,
            Token::FloatType => Token::FloatType,
            Token::BoolType => Token::BoolType,
            Token::StringType => Token::StringType,
            Token::Else => Token::Else,
            Token::If => Token::If,
            Token::Eof => Token::Eof,
        }
    }

    /// Whether two tokens are the same token (same kind, same payload).
    pub fn same(&self, other: &Token) -> (r: bool)
        ensures
            r == (self@ == other@),
    {
        match self {
            Token::Ident(a) => match other {
                Token::Ident(b) => *a == *b,
                _ => false,
            },
            Token::Number(a) => match other {
                Token::Number(b) => *a == *b,
                _ => false,
            },
            Token::FloatLiteral(a) => match other {
                Token::FloatLiteral(b) => *a == *b,
                _ => false,
            },
            Token::StringLiteral(a) => match other {
                Token::StringLiteral(b) => *a == *b,
                _ => false,
            },
            Token::Let => matches!(other, Token::Let),
            Token::Function => matches!(other, Token::Function),
            Token::Return => matches!(other, Token::Return),
            Token::Plus => matches!(other, Token::Plus),
            Token::Minus => matches!(other, Token::Minus),
            Token::Multiply => matches!(other, Token::Multiply),
            Token::Divide => matches!(other, Token::Divide),
            Token::Assign => matches!(other, Token::Assign),
            Token::EqualEqual => matches!(other, Token::EqualEqual),
            Token::NotEqual => matches!(other, Token::NotEqual),
            Token::Greater => matches!(other, Token::Greater),
            Token::GreaterEqual => matches!(other, Token::GreaterEqual),
            Token::Less => matches!(other, Token::Less),
            Token::LessEqual => matches!(other, Token::LessEqual),
            Token::Semicolon => matches!(other, Token::Semicolon),
            Token::LParen => matches!(other, Token::LParen),
            Token::RParen => matches!(other, Token::RParen),
            Token::LBrace => matches!(other, Token::LBrace),
            Token::RBrace => matches!(other, Token::RBrace),
            Token::Comma => matches!(other, Token::Comma),
            Token::Colon => matches!(other, Token::Colon),
            Token::IntType => matches!(other, Token::IntType),
            Token::FloatType => matches!(other, Token::FloatType),
            Token::BoolType => matches!(other, Token::BoolType),
            Token::StringType => matches!(other, Token::StringType),
            Token::Else => matches!(other, Token::Else),
            Token::If => matches!(other, Token::If),
            Token::Eof => matches!(other, Token::Eof),
        }
    }
}

impl PartialEq for Token {
    fn eq(&self, other: &Token) -> (r: bool) {
        self.same(other)
    }
}

impl vstd::std_specs::cmp::PartialEqSpecImpl for Token {
    open spec fn obeys_eq_spec() -> bool {
        true
    }

    open spec fn eq_spec(&self, other: &Token) -> bool {
        self@ == other@
    }
}

} // verus!
