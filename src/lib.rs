//! An incremental lexical scanner that turns UTF-8 bytes into positioned tokens.
pub mod error;
pub mod grammar;
pub mod interning;
pub mod laws;
pub mod lexer;
pub mod token;
pub mod utf8;

pub use error::{Error, Kind};
pub use token::{Position, Span, Token, TokenData};
