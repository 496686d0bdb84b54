//! Evaluation of integer arithmetic expressions: a lexer that hands out
//! tokens on demand and a recursive-descent evaluator over them, both proved
//! against a specification of the grammar
//!
//! ```text
//! expr   := term (('+' | '-') term)*
//! term   := factor (('*' | '/') factor)*
//! factor := INTEGER | '-' factor | '(' expr ')'
//! ```
pub mod laws;
pub mod lexer;
pub mod parser;
pub mod spacing;
pub mod token;

pub use lexer::Lexer;
pub use parser::{evaluate, Interpreter};
pub use token::{ArithError, Error, LexError, ParseError, Token, TokenKind};
