//! Errors reported by the lexer.
use vstd::prelude::*;

use crate::token::Span;

verus! {

/// A failure to produce a token, with the place where it was detected.
#[derive(Debug, PartialEq, Eq, Copy, Clone, Structural)]
pub struct Error {
    pub kind: Kind,
    pub span: Span,
}

/// What went wrong.
#[derive(Debug, PartialEq, Eq, Copy, Clone, Structural)]
pub enum Kind {
    /// The input is not well-formed UTF-8, or ends inside a multi-byte sequence.
    InvalidUtf8,
    /// The input ended where a new character would start.
    UnexpectedEoi,
    /// The raw identifier prefix `#` is not followed by `_` or an ASCII letter.
    InvalidRawIdent,
    /// A radix prefix such as `0b` or `0x` is followed by no digits.
    EmptyPrefixedInt,
    /// The digits after a radix prefix are not all valid in that radix.
    InvalidPrefixedInt {
        /// The radix that the prefix selects.
        radix: u32,
    },
    /// A token cannot start with this character.
    UnsupportedCharacter,
}

} // verus!
