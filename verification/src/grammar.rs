//! What the lexer returns, stated over sequences of characters.
//!
//! A line is scanned from left to right. At each place [`step_at`] names the
//! token that starts there and how many characters it takes, or the reason
//! why none does; [`line_tokens`] follows these steps to the end of the line
//! and closes it with a `Newline`. [`split_lines`] cuts a text into lines and
//! [`text_tokens`] strings the lines' tokens together.

use crate::chars::{
    is_alphabetic_char,
    is_digit_char,
    is_whitespace_char,
    keyword_of,
    single_char_token,
};
use crate::error::LexErrorView;
use crate::token::{DataTokenView, Operator, Seperator, TokenView};
use vstd::prelude::*;

verus! {

/// The outcome of scanning at one place of a line.
pub enum Step {
    /// A token of `width` characters starts here.
    Emit { ty: TokenView, width: int },
    /// `&` or `|` stands here without its twin.
    BadContinuation { expected: char, found: Option<char> },
    /// No token starts with this character.
    Unknown { character: char },
}

/// The character at index `i` of `line`, if the line reaches that far.
pub open spec fn peek(line: Seq<char>, i: int) -> Option<char> {
    if 0 <= i < line.len() {
        Some(line[i])
    } else {
        None
    }
}

/// The characters that may form a two-character token with the one after
/// them.
pub open spec fn starts_pair(first: char) -> bool {
    first == '=' || first == '-' || first == '!' || first == '>' || first == '<' || first == '&'
        || first == '|'
}

/// The table of two-character tokens: what `first` gives when `next` follows
/// it. Five of its rows fall back to a token of one character; `&` and `|`
/// have none, and standing alone they are a failure.
///
/// `LesserEquals` is written `<<`. The characters `<=` are `LesserThan`
/// followed by `Assign`.
pub open spec fn pair_step(first: char, next: Option<char>) -> Step
    recommends
        starts_pair(first),
{
    if first == '=' {
        if next == Some('=') {
            Step::Emit { ty: TokenView::Operator(Operator::Equals), width: 2 }
        } else {
            Step::Emit { ty: TokenView::Operator(Operator::Assign), width: 1 }
        }
    } else if first == '-' {
        if next == Some('>') {
            Step::Emit { ty: TokenView::Seperator(Seperator::Arrow), width: 2 }
        } else {
            Step::Emit { ty: TokenView::Operator(Operator::Minus), width: 1 }
        }
    } else if first == '!' {
        if next == Some('=') {
            Step::Emit { ty: TokenView::Operator(Operator::NotEquals), width: 2 }
        } else {
            Step::Emit { ty: TokenView::Operator(Operator::Not), width: 1 }
        }
    } else if first == '>' {
        if next == Some('=') {
            Step::Emit { ty: TokenView::Operator(Operator::GreaterEquals), width: 2 }
        } else {
            Step::Emit { ty: TokenView::Operator(Operator::GreaterThan), width: 1 }
        }
    } else if first == '<' {
        if next == Some('<') {
            Step::Emit { ty: TokenView::Operator(Operator::LesserEquals), width: 2 }
        } else {
            Step::Emit { ty: TokenView::Operator(Operator::LesserThan), width: 1 }
        }
    } else if first == '&' {
        if next == Some('&') {
            Step::Emit { ty: TokenView::Operator(Operator::And), width: 2 }
        } else {
            Step::BadContinuation { expected: '&', found: next }
        }
    } else {
        if next == Some('|') {
            Step::Emit { ty: TokenView::Operator(Operator::Or), width: 2 }
        } else {
            Step::BadContinuation { expected: '|', found: next }
        }
    }
}

/// Whether `c` belongs to the class of a run: digits, or letters.
pub open spec fn in_class(c: char, digits: bool) -> bool {
    if digits {
        is_digit_char(c)
    } else {
        is_alphabetic_char(c)
    }
}

/// Where the run of one class that reaches index `i` stops: the first index
/// from `i` on that holds a character of another class, or the end of the
/// line.
pub open spec fn run_end(line: Seq<char>, i: int, digits: bool) -> int
    decreases line.len() - i,
{
    if 0 <= i < line.len() && in_class(line[i], digits) {
        run_end(line, i + 1, digits)
    } else {
        i
    }
}

/// The token for a run of letters: the keyword of that spelling, or else an
/// identifier.
pub open spec fn word_token(word: Seq<char>) -> TokenView {
    match keyword_of(word) {
        Some(k) => TokenView::Keyword(k),
        None => TokenView::Identifier(word),
    }
}

/// What starts at index `i` of `line`.
///
/// The table of single characters is asked first, then the table of pairs,
/// then the character classes: white space, digits, letters.
pub open spec fn step_at(line: Seq<char>, i: int) -> Step
    recommends
        0 <= i < line.len(),
{
    let c = line[i];
    if single_char_token(c) is Some {
        Step::Emit { ty: single_char_token(c)->0, width: 1 }
    } else if starts_pair(c) {
        pair_step(c, peek(line, i + 1))
    } else if is_whitespace_char(c) {
        Step::Emit { ty: TokenView::Seperator(Seperator::Whitespace), width: 1 }
    } else if is_digit_char(c) {
        let end = run_end(line, i + 1, true);
        Step::Emit { ty: TokenView::Integer(line.subrange(i, end)), width: end - i }
    } else if is_alphabetic_char(c) {
        let end = run_end(line, i + 1, false);
        Step::Emit { ty: word_token(line.subrange(i, end)), width: end - i }
    } else {
        Step::Unknown { character: c }
    }
}

/// The token that closes line `line_no`.
pub open spec fn newline_token(line: Seq<char>, line_no: int) -> DataTokenView {
    DataTokenView {
        ty: TokenView::Seperator(Seperator::Newline),
        line: line_no,
        column: line.len() as int + 1,
    }
}

/// The tokens of `line` from index `i` to its end, the closing `Newline`
/// included, or the first failure from `i` on.
pub open spec fn lex_from(line: Seq<char>, line_no: int, i: int) -> Result<
    Seq<DataTokenView>,
    LexErrorView,
>
    decreases line.len() - i,
    via lex_from_decreases
{
    if i < 0 || i >= line.len() {
        Ok(seq![newline_token(line, line_no)])
    } else {
        match step_at(line, i) {
            Step::Emit { ty, width } => match lex_from(line, line_no, i + width) {
                Ok(rest) => Ok(seq![DataTokenView { ty, line: line_no, column: i + 1 }] + rest),
                Err(e) => Err(e),
            },
            Step::BadContinuation { expected, found } => Err(
                LexErrorView::InvalidOperatorContinuation {
                    line: line_no,
                    column: i + 1,
                    expected,
                    found,
                },
            ),
            Step::Unknown { character } => Err(
                LexErrorView::UnknownCharacter { line: line_no, column: i + 1, character },
            ),
        }
    }
}

#[via_fn]
proof fn lex_from_decreases(line: Seq<char>, line_no: int, i: int) {
    if 0 <= i < line.len() {
        lemma_step_width(line, i);
    }
}

/// A run stops at or after the place it is asked from, and inside the line.
pub proof fn lemma_run_end_bounds(line: Seq<char>, i: int, digits: bool)
    requires
        0 <= i <= line.len(),
    ensures
        i <= run_end(line, i, digits) <= line.len(),
    decreases line.len() - i,
{
    if i < line.len() && in_class(line[i], digits) {
        lemma_run_end_bounds(line, i + 1, digits);
    }
}

/// Every token takes at least one character and none reaches past the end of
/// the line.
pub proof fn lemma_step_width(line: Seq<char>, i: int)
    requires
        0 <= i < line.len(),
    ensures
        step_at(line, i) matches Step::Emit { width, .. } ==> 1 <= width <= line.len() - i,
{
    lemma_run_end_bounds(line, i + 1, true);
    lemma_run_end_bounds(line, i + 1, false);
}

/// All tokens of line number `line_no`, or the first failure in it.
pub open spec fn line_tokens(line: Seq<char>, line_no: int) -> Result<
    Seq<DataTokenView>,
    LexErrorView,
> {
    lex_from(line, line_no, 0)
}

/// The index of the first line feed at or after `start`, or the length of
/// `text` where none follows.
pub open spec fn line_end(text: Seq<char>, start: int) -> int
    decreases text.len() - start,
{
    if 0 <= start < text.len() && text[start] != '\n' {
        line_end(text, start + 1)
    } else {
        start
    }
}

/// The line that starts at `start` and is ended at `end`, by a line feed or
/// by the end of `text`. A carriage return directly before the line feed
/// belongs to the line ending and not to the line.
pub open spec fn line_content(text: Seq<char>, start: int, end: int) -> Seq<char> {
    if end < text.len() && start < end && text[end - 1] == '\r' {
        text.subrange(start, end - 1)
    } else {
        text.subrange(start, end)
    }
}

/// The lines of `text` from index `start` on.
pub open spec fn lines_from(text: Seq<char>, start: int) -> Seq<Seq<char>>
    decreases text.len() + 1 - start,
    via lines_from_decreases
{
    if start < 0 || start >= text.len() {
        Seq::empty()
    } else {
        let end = line_end(text, start);
        seq![line_content(text, start, end)] + lines_from(text, end + 1)
    }
}

#[via_fn]
proof fn lines_from_decreases(text: Seq<char>, start: int) {
    if 0 <= start < text.len() {
        lemma_line_end_bounds(text, start);
    }
}

/// A line ends at or after its start, inside the text, and holds no line
/// feed.
pub proof fn lemma_line_end_bounds(text: Seq<char>, start: int)
    requires
        0 <= start <= text.len(),
    ensures
        start <= line_end(text, start) <= text.len(),
        line_end(text, start) < text.len() ==> text[line_end(text, start)] == '\n',
        forall|k: int| start <= k < line_end(text, start) ==> text[k] != '\n',
    decreases text.len() - start,
{
    if start < text.len() && text[start] != '\n' {
        lemma_line_end_bounds(text, start + 1);
    }
}

/// The physical lines of `text`, in order.
///
/// A line feed ends a line, and so does a carriage return directly followed
/// by one. The last line needs no line ending, and a text that ends with a
/// line ending has no empty line after it.
pub open spec fn split_lines(text: Seq<char>) -> Seq<Seq<char>> {
    lines_from(text, 0)
}

/// The tokens of `lines`, numbered from `first_line_no` on, strung together
/// in order, or the failure of the first line that has one.
pub open spec fn lex_lines(lines: Seq<Seq<char>>, first_line_no: int) -> Result<
    Seq<DataTokenView>,
    LexErrorView,
>
    decreases lines.len(),
{
    if lines.len() == 0 {
        Ok(Seq::empty())
    } else {
        match line_tokens(lines[0], first_line_no) {
            Err(e) => Err(e),
            Ok(head) => match lex_lines(lines.drop_first(), first_line_no + 1) {
                Ok(rest) => Ok(head + rest),
                Err(e) => Err(e),
            },
        }
    }
}

/// The tokens of a whole text: those of its lines, the first line being
/// line 1.
pub open spec fn text_tokens(text: Seq<char>) -> Result<Seq<DataTokenView>, LexErrorView> {
    lex_lines(split_lines(text), 1)
}

} // verus!
