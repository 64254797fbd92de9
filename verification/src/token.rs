//! The vocabulary of lexical units.

use vstd::prelude::*;
use crate::number::Number;

verus! {

/// The category of a lexical unit.
#[derive(Clone, Copy, Debug, PartialEq, Eq, Structural)]
pub enum TokenKind {
    LeftParen,
    RightParen,
    LeftBrace,
    RightBrace,
    Comma,
    Dot,
    Minus,
    Plus,
    Semicolon,
    Slash,
    Star,
    Bang,
    BangEqual,
    Equal,
    EqualEqual,
    Greater,
    GreaterEqual,
    Less,
    LessEqual,
    Identifier,
    Str,
    Number,
    And,
    Class,
    Else,
    False,
    Fun,
    For,
    If,
    Nil,
    Or,
    Print,
    Return,
    Super,
    This,
    True,
    Var,
    While,
    Eof,
}

/// What a token carries besides its kind: the name of an identifier, the
/// content of a string, or the value of a numeral.
#[derive(Debug, PartialEq, Eq)]
pub enum Literal {
    Text(String),
    Number(Number),
}

/// The mathematical model of a `Literal`.
pub enum SpecLiteral {
    Text(Seq<char>),
    Number(Number),
}

impl View for Literal {
    type V = SpecLiteral;

    open spec fn view(&self) -> SpecLiteral {
        match self {
            Literal::Text(s) => SpecLiteral::Text(s@),
            Literal::Number(n) => SpecLiteral::Number(*n),
        }
    }
}

impl Clone for Literal {
    fn clone(&self) -> (r: Literal)
        ensures
            r == *self,
    {
        match self {
            Literal::Text(s) => Literal::Text(s.clone()),
            Literal::Number(n) => Literal::Number(*n),
        }
    }
}

/// A lexical unit with its place in the source: `line` counts from one,
/// `position` is the offset of its first character, counted in characters
/// from the start of the source.
#[derive(Debug, PartialEq, Eq)]
pub struct Token {
    pub kind: TokenKind,
    pub literal: Option<Literal>,
    pub line: u32,
    pub position: usize,
}

/// The mathematical model of a `Token`.
pub struct SpecToken {
    pub kind: TokenKind,
    pub literal: Option<SpecLiteral>,
    pub line: u32,
    pub position: usize,
}

/// The model of an optional literal.
pub open spec fn literal_view(l: Option<Literal>) -> Option<SpecLiteral> {
    match l {
        Some(l) => Some(l@),
        None => None,
    }
}

impl View for Token {
    type V = SpecToken;

    open spec fn view(&self) -> SpecToken {
        SpecToken {
            kind: self.kind,
            literal: literal_view(self.literal),
            line: self.line,
            position: self.position,
        }
    }
}

impl Clone for Token {
    fn clone(&self) -> (r: Token)
        ensures
            r == *self,
    {
        let literal = match &self.literal {
            Some(l) => Some(l.clone()),
            None => None,
        };
        Token { kind: self.kind, literal, line: self.line, position: self.position }
    }
}

/// The models of a sequence of tokens.
pub open spec fn tokens_view(v: Seq<Token>) -> Seq<SpecToken> {
    v.map_values(|t: Token| t@)
}

impl Token {
    /// A token without a literal.
    pub fn plain(kind: TokenKind, line: u32, position: usize) -> (t: Token)
        ensures
            t@ == (SpecToken { kind, literal: None, line, position }),
    {
        Token { kind, literal: None, line, position }
    }

    /// A token that carries text: an identifier or a string.
    pub fn with_text(kind: TokenKind, text: String, line: u32, position: usize) -> (t: Token)
        ensures
            t@ == (SpecToken { kind, literal: Some(SpecLiteral::Text(text@)), line, position }),
    {
        Token { kind, literal: Some(Literal::Text(text)), line, position }
    }

    /// A numeral.
    pub fn with_number(value: Number, line: u32, position: usize) -> (t: Token)
        ensures
            t@ == (SpecToken {
                kind: TokenKind::Number,
                literal: Some(SpecLiteral::Number(value)),
                line,
                position,
            }),
    {
        Token { kind: TokenKind::Number, literal: Some(Literal::Number(value)), line, position }
    }
}

} // verus!
