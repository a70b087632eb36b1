//! A lexer for the Vid language.
//!
//! The crate turns source text into a sequence of classified tokens. The
//! rules of the language live in [`lex::grammar`] as specification
//! functions; the scanner in [`lex::lexer`] is proved to follow them, and
//! [`lex::laws`] states what holds of every scan.

pub mod error;
pub mod lex;
pub mod style;
