//! Tokens, the grammar that defines them, and the scanner.

pub mod classify;
pub mod grammar;
pub mod laws;
pub mod lexer;
pub mod token;

pub use lexer::Lexer;
pub use token::{Token, TokenType};
