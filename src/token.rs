use vstd::prelude::*;

verus! {

/// The kind of a token, without the value that an integer literal carries.
#[derive(Debug, Clone, Copy, PartialEq, Eq, Structural)]
pub enum TokenKind {
    Integer,
    Plus,
    Minus,
    Star,
    Slash,
    LParen,
    RParen,
    EndOfInput,
}

/// One lexical unit of an arithmetic expression.
#[derive(Debug, Clone, Copy, PartialEq, Eq, Structural)]
pub enum Token {
    Integer(i64),
    Plus,
    Minus,
    Star,
    Slash,
    LParen,
    RParen,
    EndOfInput,
}

impl Token {
    pub open spec fn spec_kind(&self) -> TokenKind {
        match self {
            Token::Integer(_) => TokenKind::Integer,
            Token::Plus => TokenKind::Plus,
            Token::Minus => TokenKind::Minus,
            Token::Star => TokenKind::Star,
            Token::Slash => TokenKind::Slash,
            Token::LParen => TokenKind::LParen,
            Token::RParen => TokenKind::RParen,
            Token::EndOfInput => TokenKind::EndOfInput,
        }
    }

    /// The kind of this token.
    #[verifier::when_used_as_spec(spec_kind)]
    pub fn kind(&self) -> (k: TokenKind)
        ensures
            k == self.spec_kind(),
    {
        match self {
            Token::Integer(_) => TokenKind::Integer,
            Token::Plus => TokenKind::Plus,
            Token::Minus => TokenKind::Minus,
            Token::Star => TokenKind::Star,
            Token::Slash => TokenKind::Slash,
            Token::LParen => TokenKind::LParen,
            Token::RParen => TokenKind::RParen,
            Token::EndOfInput => TokenKind::EndOfInput,
        }
    }
}

/// A failure to turn characters into tokens. Positions count characters from 0.
#[derive(Debug, Clone, Copy, PartialEq, Eq, Structural)]
pub enum LexError {
    UnexpectedCharacter { ch: char, position: usize },
    Overflow { position: usize },
}

/// A token sequence that does not follow the grammar.
#[derive(Debug, Clone, Copy, PartialEq, Eq, Structural)]
pub enum ParseError {
    UnexpectedToken { expected: TokenKind, found: Token, position: usize },
    UnclosedParen { position: usize },
    TrailingInput { position: usize },
}

/// A well-formed expression whose value cannot be computed in `i64`.
#[derive(Debug, Clone, Copy, PartialEq, Eq, Structural)]
pub enum ArithError {
    DivisionByZero { position: usize },
    Overflow { position: usize },
}

/// Any failure to evaluate one line of input.
#[derive(Debug, Clone, Copy, PartialEq, Eq, Structural)]
pub enum Error {
    Lex(LexError),
    Parse(ParseError),
    Arith(ArithError),
}

} // verus!
