//! The ways in which a line can fail to scan.

use vstd::prelude::*;

verus! {

/// Why scanning stopped. Scanning stops at the first failure, in reading
/// order, and no token is handed out with it.
#[derive(Copy, Clone, Debug, PartialEq, Eq)]
pub enum LexError {
    /// `&` or `|` was not directly followed by a second one. `expected` is
    /// that second character; `found` is what stood there, or `None` at the
    /// end of the line. `line` and `column` are those of the first character.
    InvalidOperatorContinuation { line: usize, column: usize, expected: char, found: Option<char> },
    /// A character that starts no token: it is neither in one of the tables,
    /// nor white space, nor an ASCII letter or digit. Letters and digits
    /// outside ASCII are such characters.
    UnknownCharacter { line: usize, column: usize, character: char },
}

/// What a [`LexError`] is in contracts.
pub enum LexErrorView {
    InvalidOperatorContinuation { line: int, column: int, expected: char, found: Option<char> },
    UnknownCharacter { line: int, column: int, character: char },
}

impl View for LexError {
    type V = LexErrorView;

    open spec fn view(&self) -> LexErrorView {
        match *self {
            LexError::InvalidOperatorContinuation { line, column, expected, found } => {
                LexErrorView::InvalidOperatorContinuation {
                    line: line as int,
                    column: column as int,
                    expected,
                    found,
                }
            },
            LexError::UnknownCharacter { line, column, character } => {
                LexErrorView::UnknownCharacter {
                    line: line as int,
                    column: column as int,
                    character,
                }
            },
        }
    }
}

impl LexError {
    /// The place of the offending character: `(line, column)`, counted from
    /// one.
    pub fn pos(&self) -> (p: (usize, usize))
        ensures
            p.0 as int == self@.line(),
            p.1 as int == self@.column(),
    {
        match self {
            LexError::InvalidOperatorContinuation { line, column, .. } => (*line, *column),
            LexError::UnknownCharacter { line, column, .. } => (*line, *column),
        }
    }
}

impl LexErrorView {
    /// The line of the offending character.
    pub open spec fn line(self) -> int {
        match self {
            LexErrorView::InvalidOperatorContinuation { line, .. } => line,
            LexErrorView::UnknownCharacter { line, .. } => line,
        }
    }

    /// The column of the offending character.
    pub open spec fn column(self) -> int {
        match self {
            LexErrorView::InvalidOperatorContinuation { column, .. } => column,
            LexErrorView::UnknownCharacter { column, .. } => column,
        }
    }
}

} // verus!
