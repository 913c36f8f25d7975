//! Tokens produced by the lexer.

use vstd::prelude::*;

verus! {

#[derive(Debug, Clone, Copy, PartialEq, Eq, Default, Structural)]
pub struct Position {
    pub offset: usize,
    pub line: usize,
    pub column: usize,
}

impl Position {
    pub fn new(offset: usize, line: usize, column: usize) -> (p: Self)
        ensures
            p == (Position { offset, line, column }),
    {
        Position { offset, line, column }
    }
}

#[derive(Debug, Clone, Copy, PartialEq, Eq, Default, Structural)]
pub struct Span {
    pub start: Position,
    pub end: Position,
}

impl Span {
    pub fn new(start: Position, end: Position) -> (s: Self)
        ensures
            s == (Span { start, end }),
    {
        Span { start, end }
    }
}

#[derive(Debug, Clone, PartialEq, Eq)]
pub struct Token {
    pub kind: TokenKind,
    pub span: Span,
}

impl Token {
    pub fn new(kind: TokenKind, span: Span) -> (t: Self)
        ensures
            t == (Token { kind, span }),
    {
        Token { kind, span }
    }
}

#[derive(Debug, Clone, PartialEq, Eq)]
pub enum TokenKind {
    Identifier(String),
    Integer(String),
    Float(String),
    String(String),
    True,
    False,
    Let,
    Const,
    Fn,
    Struct,
    Enum,
    If,
    Else,
    For,
    In,
    While,
    Return,
    Import,
    Private,
    Match,
    LParen,
    RParen,
    LBracket,
    RBracket,
    LBrace,
    RBrace,
    Comma,
    Colon,
    Dot,
    DotDot,
    Arrow,
    FatArrow,
    Question,
    Plus,
    Minus,
    Star,
    Slash,
    Equal,
    EqualEqual,
    Bang,
    BangEqual,
    Less,
    LessEqual,
    Greater,
    GreaterEqual,
    AndAnd,
    OrOr,
    Semicolon,
    Newline,
    Eof,
}

/// A token kind as plain values: the number of its variant (in declaration order)
/// and the text it carries (empty for kinds without text).
pub open spec fn kind_tag(k: TokenKind) -> nat {
    match k {
        TokenKind::Identifier(_) => 0,
        TokenKind::Integer(_) => 1,
        TokenKind::Float(_) => 2,
        TokenKind::String(_) => 3,
        TokenKind::True => 4,
        TokenKind::False => 5,
        TokenKind::Let => 6,
        TokenKind::Const => 7,
        TokenKind::Fn => 8,
        TokenKind::Struct => 9,
        TokenKind::Enum => 10,
        TokenKind::If => 11,
        TokenKind::Else => 12,
        TokenKind::For => 13,
        TokenKind::In => 14,
        TokenKind::While => 15,
        TokenKind::Return => 16,
        TokenKind::Import => 17,
        TokenKind::Private => 18,
        TokenKind::Match => 19,
        TokenKind::LParen => 20,
        TokenKind::RParen => 21,
        TokenKind::LBracket => 22,
        TokenKind::RBracket => 23,
        TokenKind::LBrace => 24,
        TokenKind::RBrace => 25,
        TokenKind::Comma => 26,
        TokenKind::Colon => 27,
        TokenKind::Dot => 28,
        TokenKind::DotDot => 29,
        TokenKind::Arrow => 30,
        TokenKind::FatArrow => 31,
        TokenKind::Question => 32,
        TokenKind::Plus => 33,
        TokenKind::Minus => 34,
        TokenKind::Star => 35,
        TokenKind::Slash => 36,
        TokenKind::Equal => 37,
        TokenKind::EqualEqual => 38,
        TokenKind::Bang => 39,
        TokenKind::BangEqual => 40,
        TokenKind::Less => 41,
        TokenKind::LessEqual => 42,
        TokenKind::Greater => 43,
        TokenKind::GreaterEqual => 44,
        TokenKind::AndAnd => 45,
        TokenKind::OrOr => 46,
        TokenKind::Semicolon => 47,
        TokenKind::Newline => 48,
        TokenKind::Eof => 49,
    }
}

pub open spec fn kind_text(k: TokenKind) -> Seq<char> {
    match k {
        TokenKind::Identifier(s) => s@,
        TokenKind::Integer(s) => s@,
        TokenKind::Float(s) => s@,
        TokenKind::String(s) => s@,
        _ => Seq::empty(),
    }
}

/// The description used in diagnostics.
pub open spec fn kind_description(k: TokenKind) -> Seq<char> {
    match k {
        TokenKind::Identifier(_) => "identifier"@,
        TokenKind::Integer(_) => "integer literal"@,
        TokenKind::Float(_) => "float literal"@,
        TokenKind::String(_) => "string literal"@,
        TokenKind::True => "`true`"@,
        TokenKind::False => "`false`"@,
        TokenKind::Let => "`let`"@,
        TokenKind::Const => "`const`"@,
        TokenKind::Fn => "`fn`"@,
        TokenKind::Struct => "`struct`"@,
        TokenKind::Enum => "`enum`"@,
        TokenKind::If => "`if`"@,
        TokenKind::Else => "`else`"@,
        TokenKind::For => "`for`"@,
        TokenKind::In => "`in`"@,
        TokenKind::While => "`while`"@,
        TokenKind::Return => "`return`"@,
        TokenKind::Import => "`import`"@,
        TokenKind::Private => "`priv`"@,
        TokenKind::Match => "`match`"@,
        TokenKind::LParen => "`(`"@,
        TokenKind::RParen => "`)`"@,
        TokenKind::LBracket => "`[`"@,
        TokenKind::RBracket => "`]`"@,
        TokenKind::LBrace => "`{`"@,
        TokenKind::RBrace => "`}`"@,
        TokenKind::Comma => "`,`"@,
        TokenKind::Colon => "`:`"@,
        TokenKind::Dot => "`.`"@,
        TokenKind::DotDot => "`..`"@,
        TokenKind::Arrow => "`->`"@,
        TokenKind::FatArrow => "`=>`"@,
        TokenKind::Question => "`?`"@,
        TokenKind::Plus => "`+`"@,
        TokenKind::Minus => "`-`"@,
        TokenKind::Star => "`*`"@,
        TokenKind::Slash => "`/`"@,
        TokenKind::Equal => "`=`"@,
        TokenKind::EqualEqual => "`==`"@,
        TokenKind::Bang => "`!`"@,
        TokenKind::BangEqual => "`!=`"@,
        TokenKind::Less => "`<`"@,
        TokenKind::LessEqual => "`<=`"@,
        TokenKind::Greater => "`>`"@,
        TokenKind::GreaterEqual => "`>=`"@,
        TokenKind::AndAnd => "`&&`"@,
        TokenKind::OrOr => "`||`"@,
        TokenKind::Semicolon => "`;`"@,
        TokenKind::Newline => "newline"@,
        TokenKind::Eof => "end of file"@,
    }
}

impl TokenKind {
    pub fn describe(&self) -> (r: &'static str)
        ensures
            r@ == kind_description(*self),
    {
        match self {
            TokenKind::Identifier(_) => "identifier",
            TokenKind::Integer(_) => "integer literal",
            TokenKind::Float(_) => "float literal",
            TokenKind::String(_) => "string literal",
            TokenKind::True => "`true`",
            TokenKind::False => "`false`",
            TokenKind::Let => "`let`",
            TokenKind::Const => "`const`",
            TokenKind::Fn => "`fn`",
            TokenKind::Struct => "`struct`",
            TokenKind::Enum => "`enum`",
            TokenKind::If => "`if`",
            TokenKind::Else => "`else`",
            TokenKind::For => "`for`",
            TokenKind::In => "`in`",
            TokenKind::While => "`while`",
            TokenKind::Return => "`return`",
            TokenKind::Import => "`import`",
            TokenKind::Private => "`priv`",
            TokenKind::Match => "`match`",
            TokenKind::LParen => "`(`",
            TokenKind::RParen => "`)`",
            TokenKind::LBracket => "`[`",
            TokenKind::RBracket => "`]`",
            TokenKind::LBrace => "`{`",
            TokenKind::RBrace => "`}`",
            TokenKind::Comma => "`,`",
            TokenKind::Colon => "`:`",
            TokenKind::Dot => "`.`",
            TokenKind::DotDot => "`..`",
            TokenKind::Arrow => "`->`",
            TokenKind::FatArrow => "`=>`",
            TokenKind::Question => "`?`",
            TokenKind::Plus => "`+`",
            TokenKind::Minus => "`-`",
            TokenKind::Star => "`*`",
            TokenKind::Slash => "`/`",
            TokenKind::Equal => "`=`",
            TokenKind::EqualEqual => "`==`",
            TokenKind::Bang => "`!`",
            TokenKind::BangEqual => "`!=`",
            TokenKind::Less => "`<`",
            TokenKind::LessEqual => "`<=`",
            TokenKind::Greater => "`>`",
            TokenKind::GreaterEqual => "`>=`",
            TokenKind::AndAnd => "`&&`",
            TokenKind::OrOr => "`||`",
            TokenKind::Semicolon => "`;`",
            TokenKind::Newline => "newline",
            TokenKind::Eof => "end of file",
        }
    }
}

} // verus!
