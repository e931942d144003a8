//! Tokens and their kinds.
use vstd::prelude::*;

verus! {

/// The kinds of token that the scanner produces.
#[derive(Debug, Clone, Copy, PartialEq, Eq, Hash, Structural)]
pub enum TokenType {
    // Single-character tokens.
    LeftParen,
    RightParen,
    LeftBrace,
    RightBrace,
    Comma,
    Dot,
    Minus,
    Plus,
    Semicolon,
    Slash,
    Star,
    // One or two character tokens.
    Bang,
    BangEqual,
    Equal,
    EqualEqual,
    Greater,
    GreaterEqual,
    Less,
    LessEqual,
    // Literals.
    Identifier,
    String,
    Number,
    // Keywords.
    And,
    Class,
    Else,
    False,
    Fun,
    For,
    If,
    Nil,
    Or,
    Print,
    Return,
    Super,
    This,
    True,
    Var,
    While,
    /// A lexical error; the lexeme of such a token is the message.
    Error,
    /// The end of the input.
    Eof,
}

/// A token: its kind, the bytes it was read from, and the line on which its
/// first byte stands.
#[derive(Debug, Clone, Copy)]
pub struct Token<'a> {
    pub token_type: TokenType,
    pub lexeme: &'a [u8],
    pub line: usize,
}

impl<'a> Token<'a> {
    /// The token that stands in before anything was scanned: an end of
    /// input with no text, on line 0.
    pub fn default() -> (token: Self)
        ensures
            token.token_type == TokenType::Eof,
            token.lexeme@ == Seq::<u8>::empty(),
            token.line == 0,
    {
        Token { token_type: TokenType::Eof, lexeme: &[], line: 0 }
    }
}

} // verus!
