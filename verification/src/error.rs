//! The failures a scan can end in.

use vstd::prelude::*;

verus! {

/// What went wrong.
#[derive(Debug, Clone, Copy, PartialEq, Eq, Structural)]
pub enum LexErrorKind {
    /// The input ended inside a string literal.
    UnterminatedString,
    /// The input ended inside a character literal.
    UnterminatedChar,
    /// A character literal with nothing between its quotes.
    EmptyCharLiteral,
    /// A character literal whose content is not followed by a closing quote.
    MultiCharCharLiteral,
    /// A backslash followed by a character that names no escape.
    UnknownEscapeSequence,
    /// A character that begins no token; it is carried along.
    UnexpectedCharacter(char),
}

/// A failed scan: what went wrong, and where the scanner stood.
#[derive(Debug, Clone, Copy, PartialEq, Eq, Structural)]
pub struct LexError {
    pub kind: LexErrorKind,
    /// Offset, in bytes of the UTF-8 source, of the offending character, or
    /// the length of the source when the input ran out inside a literal.
    pub position: usize,
    /// Line on which the scanner stood, counted from 1.
    pub line: usize,
}

} // verus!
