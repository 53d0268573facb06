use vstd::prelude::*;

verus! {

/// The lexical category of a token. The set is closed.
#[derive(Debug, Clone, Copy, PartialEq, Eq, Structural)]
pub enum TokenType {
    // Single-character tokens
    LeftParen,
    RightParen,
    LeftBrace,
    RightBrace,
    Comma,
    Dot,
    Minus,
    Plus,
    SemiColon,
    Slash,
    Star,
    // One- or two-character operators
    Bang,
    BangEqual,
    Equal,
    EqualEqual,
    Greater,
    GreaterEqual,
    Lesser,
    LesserEqual,
    // Literals
    Identifier,
    String,
    Number,
    // Reserved keywords
    And,
    Class,
    Else,
    False,
    Fun,
    For,
    If,
    Nil,
    Or,
    Print,
    Return,
    Super,
    This,
    True,
    Var,
    While,
    // End of input
    Eof,
}

} // verus!
