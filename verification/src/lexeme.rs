//! What the tokenizer hands out: a kind and a length, no text.

use vstd::prelude::*;

verus! {

/// The radix that an integer literal is written in.
#[derive(Debug, Clone, Copy, PartialEq, Eq, PartialOrd, Ord, Structural)]
pub enum Base {
    Base2,
    Base8,
    Base10,
    Base16,
}

/// What a literal is.
#[derive(Debug, Clone, Copy, PartialEq, Eq, PartialOrd, Ord, Structural)]
pub enum LiteralType {
    /// An integer literal. `empty` tells that no digit follows the prefix.
    Integer { base: Base, empty: bool },
    /// A quoted string. `terminated` tells that the closing quote was found
    /// before the line or the text ended.
    String { terminated: bool },
}

/// The kinds of tokens. Reserved words are identifiers here: to tell them
/// apart is left to the parser.
#[derive(Debug, Clone, Copy, PartialEq, Eq, PartialOrd, Ord, Structural)]
pub enum LexemeType {
    LineComment,
    BlockComment,
    Whitespace,
    Identifier,
    RawIdentifier,
    Literal { kind: LiteralType },
    Plus,
    Minus,
    Star,
    Slash,
    Equal,
    LeftAngle,
    RightAngle,
    LeftSquare,
    RightSquare,
    Dot,
    Comma,
    LeftRound,
    RightRound,
    Colon,
    Caret,
    At,
    Pound,
    Semicolon,
    Unknown,
}

/// One token of the source: its kind and the number of bytes it covers.
#[derive(Debug, Clone, Copy, PartialEq, Eq, Structural)]
pub struct Lexeme {
    pub kind: LexemeType,
    pub len: usize,
}

impl Lexeme {
    pub fn new(kind: LexemeType, len: usize) -> (lexeme: Self)
        ensures
            lexeme == (Lexeme { kind, len }),
    {
        Self { kind, len }
    }
}

} // verus!
