//! A verified lexer for a small imperative language.
//!
//! Source text is cut into physical lines and every line is scanned from left
//! to right into positioned tokens. What the scanner returns is fixed by the
//! specification functions in [`grammar`]; the laws in [`laws`] state what
//! follows from them for every input.

pub mod chars;
pub mod error;
pub mod grammar;
pub mod laws;
pub mod lexer;
pub mod token;

pub use error::{LexError, LexErrorView};
pub use lexer::to_tokens;
pub use token::{DataToken, DataTokenView, Keyword, Operator, Seperator, Token, TokenView};
