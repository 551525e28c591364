use vstd::prelude::*;

verus! {

/// The lexical category of a token, with the text that literals carry.
#[derive(Debug, Clone, PartialEq)]
pub enum TokenType {
    // single characters
    LParen,
    RParen,
    LBrace,
    RBrace,
    Comma,
    Period,
    Plus,
    Minus,
    Asterisk,
    Slash,
    Semicolon,
    // one to three characters
    NotEqual,
    NotStrictEqual,
    ComparisonEqual,
    Equal,
    StrictComparisonEqual,
    Greater,
    GreaterThanEqualTo,
    Less,
    LessThanEqualTo,
    Not,
    // literals; a number keeps its decimal text as written
    String(String),
    Name,
    Number(String),
    Identifier(String),
    // keywords
    And,
    AndAmpersand,
    Or,
    OrPipe,
    Match,
    Enum,
    Struct,
    Let,
    Const,
    True,
    False,
    Fn,
    Return,
    // end of input
    EOI,
    // trivia
    Comment,
    DocComment(String),
    Whitespace,
    // a character that starts no token
    Unknown,
}

/// The mathematical value of a `TokenType`: the same category, literal text as a sequence.
pub enum Kind {
    LParen,
    RParen,
    LBrace,
    RBrace,
    Comma,
    Period,
    Plus,
    Minus,
    Asterisk,
    Slash,
    Semicolon,
    NotEqual,
    NotStrictEqual,
    ComparisonEqual,
    Equal,
    StrictComparisonEqual,
    Greater,
    GreaterThanEqualTo,
    Less,
    LessThanEqualTo,
    Not,
    Str(Seq<char>),
    Name,
    Number(Seq<char>),
    Identifier(Seq<char>),
    And,
    AndAmpersand,
    Or,
    OrPipe,
    Match,
    Enum,
    Struct,
    Let,
    Const,
    True,
    False,
    Fn,
    Return,
    EOI,
    Comment,
    DocComment(Seq<char>),
    Whitespace,
    Unknown,
}

impl View for TokenType {
    type V = Kind;

    open spec fn view(&self) -> Kind {
        match self {
            TokenType::LParen => Kind::LParen,
            TokenType::RParen => Kind::RParen,
            TokenType::LBrace => Kind::LBrace,
            TokenType::RBrace => Kind::RBrace,
            TokenType::Comma => Kind::Comma,
            TokenType::Period => Kind::Period,
            TokenType::Plus => Kind::Plus,
            TokenType::Minus => Kind::Minus,
            TokenType::Asterisk => Kind::Asterisk,
            TokenType::Slash => Kind::Slash,
            TokenType::Semicolon => Kind::Semicolon,
            TokenType::NotEqual => Kind::NotEqual,
            TokenType::NotStrictEqual => Kind::NotStrictEqual,
            TokenType::ComparisonEqual => Kind::ComparisonEqual,
            TokenType::Equal => Kind::Equal,
            TokenType::StrictComparisonEqual => Kind::StrictComparisonEqual,
            TokenType::Greater => Kind::Greater,
            TokenType::GreaterThanEqualTo => Kind::GreaterThanEqualTo,
            TokenType::Less => Kind::Less,
            TokenType::LessThanEqualTo => Kind::LessThanEqualTo,
            TokenType::Not => Kind::Not,
            TokenType::String(s) => Kind::Str(s@),
            TokenType::Name => Kind::Name,
            TokenType::Number(s) => Kind::Number(s@),
            TokenType::Identifier(s) => Kind::Identifier(s@),
            TokenType::And => Kind::And,
            TokenType::AndAmpersand => Kind::AndAmpersand,
            TokenType::Or => Kind::Or,
            TokenType::OrPipe => Kind::OrPipe,
            TokenType::Match => Kind::Match,
            TokenType::Enum => Kind::Enum,
            TokenType::Struct => Kind::Struct,
            TokenType::Let => Kind::Let,
            TokenType::Const => Kind::Const,
            TokenType::True => Kind::True,
            TokenType::False => Kind::False,
            TokenType::Fn => Kind::Fn,
            TokenType::Return => Kind::Return,
            TokenType::EOI => Kind::EOI,
            TokenType::Comment => Kind::Comment,
            TokenType::DocComment(s) => Kind::DocComment(s@),
            TokenType::Whitespace => Kind::Whitespace,
            TokenType::Unknown => Kind::Unknown,
        }
    }
}

/// A classified slice of source text.
#[derive(Debug, PartialEq)]
pub struct Token<'a> {
    /// the type of token
    pub token_type: TokenType,
    /// character offsets where the token starts and ends
    pub span: (usize, usize),
    /// the text the token was read from
    pub source: &'a str,
}

impl TokenType {
    /// A copy of this token type.
    pub fn copied(&self) -> (r: TokenType)
        ensures
            r@ == self@,
    {
        match self {
            TokenType::LParen => TokenType::LParen,
            TokenType::RParen => TokenType::RParen,
            TokenType::LBrace => TokenType::LBrace,
            TokenType::RBrace => TokenType::RBrace,
            TokenType::Comma => TokenType::Comma,
            TokenType::Period => TokenType::Period,
            TokenType::Plus => TokenType::Plus,
            TokenType::Minus => TokenType::Minus,
            TokenType::Asterisk => TokenType::Asterisk,
            TokenType::Slash => TokenType::Slash,
            TokenType::Semicolon => TokenType::Semicolon,
            TokenType::NotEqual => TokenType::NotEqual,
            TokenType::NotStrictEqual => TokenType::NotStrictEqual,
            TokenType::ComparisonEqual => TokenType::ComparisonEqual,
            TokenType::Equal => TokenType::Equal,
            TokenType::StrictComparisonEqual => TokenType::StrictComparisonEqual,
            TokenType::Greater => TokenType::Greater,
            TokenType::GreaterThanEqualTo => TokenType::GreaterThanEqualTo,
            TokenType::Less => TokenType::Less,
            TokenType::LessThanEqualTo => TokenType::LessThanEqualTo,
            TokenType::Not => TokenType::Not,
            TokenType::String(s) => TokenType::String(s.clone()),
            TokenType::Name => TokenType::Name,
            TokenType::Number(s) => TokenType::Number(s.clone()),
            TokenType::Identifier(s) => TokenType::Identifier(s.clone()),
            TokenType::And => TokenType::And,
            TokenType::AndAmpersand => TokenType::AndAmpersand,
            TokenType::Or => TokenType::Or,
            TokenType::OrPipe => TokenType::OrPipe,
            TokenType::Match => TokenType::Match,
            TokenType::Enum => TokenType::Enum,
            TokenType::Struct => TokenType::Struct,
            TokenType::Let => TokenType::Let,
            TokenType::Const => TokenType::Const,
            TokenType::True => TokenType::True,
            TokenType::False => TokenType::False,
            TokenType::Fn => TokenType::Fn,
            TokenType::Return => TokenType::Return,
            TokenType::EOI => TokenType::EOI,
            TokenType::Comment => TokenType::Comment,
            TokenType::DocComment(s) => TokenType::DocComment(s.clone()),
            TokenType::Whitespace => TokenType::Whitespace,
            TokenType::Unknown => TokenType::Unknown,
        }
    }
}

impl<'a> Clone for Token<'a> {
    fn clone(&self) -> Self {
        Token { token_type: self.token_type.copied(), span: self.span, source: self.source }
    }
}

} // verus!
