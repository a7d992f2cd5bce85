//! Front-end core of a Pascal-dialect compiler: a cursor-driven tokenizer,
//! compact source spans backed by an interning table, and a fast
//! non-cryptographic hasher for the tables built from tokens and spans.

pub mod coverage;
pub mod cursor;
pub mod ext;
pub mod grammar;
pub mod hashing;
pub mod lexeme;
pub mod lexer;
pub mod position;
pub mod span;
pub mod utf8;

pub use crate::lexeme::Lexeme;
pub use crate::lexer::{first_lexeme, lexical_analyze};
