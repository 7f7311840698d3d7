//! The scanner: from source text to positioned tokens.

use crate::chars::{
    is_alphabetic,
    is_digit,
    is_whitespace,
    lookup_keyword,
    lookup_single_char,
};
use crate::error::{LexError, LexErrorView};
use crate::grammar::{
    in_class,
    lex_from,
    lex_lines,
    line_content,
    line_end,
    line_tokens,
    lines_from,
    peek,
    run_end,
    split_lines,
    step_at,
    text_tokens,
    Step,
};
use crate::laws::{in_reading_order, lemma_reading_order};
use crate::token::{tokens_view, DataToken, DataTokenView, Operator, Seperator, Token};
use vstd::prelude::*;
use vstd::slice::slice_subrange;
use vstd::std_specs::iter::IteratorSpec;

verus! {

/// `String::push` of the standard library: the character is appended to the
/// end of the string and nothing else changes.
pub assume_specification[ String::push ](s: &mut String, ch: char)
    ensures
        final(s)@ == old(s)@.push(ch),
;

/// `head` put in front of what `rest` holds; a failure stays as it is.
spec fn prepend(
    head: Seq<DataTokenView>,
    rest: Result<Seq<DataTokenView>, LexErrorView>,
) -> Result<Seq<DataTokenView>, LexErrorView> {
    match rest {
        Ok(tokens) => Ok(head + tokens),
        Err(e) => Err(e),
    }
}

/// The characters of `text`, one element each.
fn chars_of(text: &str) -> (buf: Vec<char>)
    ensures
        buf@ == text@,
{
    let mut buf: Vec<char> = Vec::new();
    let mut rest = text.chars();
    loop
        invariant
            buf@ + rest.remaining() == text@,
            rest.decrease() is Some,
        ensures
            buf@ == text@,
        decreases rest.decrease()->0,
    {
        match rest.next() {
            Some(c) => {
                buf.push(c);
            },
            None => {
                break ;
            },
        }
    }
    buf
}

/// A string made of the characters of `word`.
fn string_of(word: &[char]) -> (s: String)
    ensures
        s@ == word@,
{
    let mut s = String::new();
    let mut k: usize = 0;
    while k < word.len()
        invariant
            k <= word.len(),
            s@ == word@.take(k as int),
        decreases word.len() - k,
    {
        s.push(word[k]);
        k += 1;
    }
    s
}

/// Tells whether `c` belongs to the class of a run: digits, or letters.
fn has_class(c: char, digits: bool) -> (b: bool)
    ensures
        b == in_class(c, digits),
{
    if digits {
        is_digit(c)
    } else {
        is_alphabetic(c)
    }
}

/// Scans the run of digits or of letters that starts at `p` and returns the
/// index behind it.
fn scan_run(buf: &Vec<char>, start: usize, stop: usize, p: usize, digits: bool) -> (end: usize)
    requires
        start <= p < stop <= buf.len(),
    ensures
        p < end <= stop,
        end - start == run_end(buf@.subrange(start as int, stop as int), p + 1 - start, digits),
{
    let ghost line = buf@.subrange(start as int, stop as int);
    let mut q: usize = p + 1;
    while q < stop && has_class(buf[q], digits)
        invariant
            start <= p < q <= stop <= buf.len(),
            line == buf@.subrange(start as int, stop as int),
            run_end(line, p + 1 - start, digits) == run_end(line, q - start, digits),
        decreases stop - q,
    {
        q += 1;
    }
    q
}

/// Scans the token that starts at index `p` of the line `buf[start..stop]` and
/// returns it with the index behind it.
fn scan_token(buf: &Vec<char>, start: usize, stop: usize, p: usize, line_no: usize) -> (r: Result<
    (DataToken, usize),
    LexError,
>)
    requires
        start <= p < stop < buf.len(),
    ensures
        match r {
            Ok((token, next)) => {
                &&& p < next <= stop
                &&& token@.line == line_no
                &&& token@.column == p - start + 1
                &&& step_at(buf@.subrange(start as int, stop as int), p - start) == (Step::Emit {
                    ty: token@.ty,
                    width: next - p,
                })
            },
            Err(e) => lex_from(buf@.subrange(start as int, stop as int), line_no as int, p - start)
                == Err::<Seq<DataTokenView>, LexErrorView>(e@),
        },
{
    let ghost line = buf@.subrange(start as int, stop as int);
    let c = buf[p];
    let column = p - start + 1;
    let pos = (line_no, column);
    assert(line[p - start] == c);
    if let Some(ty) = lookup_single_char(c) {
        return Ok((DataToken { ty, pos }, p + 1));
    }
    let next: Option<char> = if p + 1 < stop {
        Some(buf[p + 1])
    } else {
        None
    };
    assert(next == peek(line, p - start + 1));
    let paired = match next {
        Some(d) => (c == '=' && d == '=') || (c == '-' && d == '>') || (c == '!' && d == '=') || (c
            == '>' && d == '=') || (c == '<' && d == '<') || (c == '&' && d == '&') || (c == '|'
            && d == '|'),
        None => false,
    };
    let ty = match c {
        '=' => if paired {
            Token::Operator(Operator::Equals)
        } else {
            Token::Operator(Operator::Assign)
        },
        '-' => if paired {
            Token::Seperator(Seperator::Arrow)
        } else {
            Token::Operator(Operator::Minus)
        },
        '!' => if paired {
            Token::Operator(Operator::NotEquals)
        } else {
            Token::Operator(Operator::Not)
        },
        '>' => if paired {
            Token::Operator(Operator::GreaterEquals)
        } else {
            Token::Operator(Operator::GreaterThan)
        },
        '<' => if paired {
            Token::Operator(Operator::LesserEquals)
        } else {
            Token::Operator(Operator::LesserThan)
        },
        '&' => if paired {
            Token::Operator(Operator::And)
        } else {
            return Err(
                LexError::InvalidOperatorContinuation {
                    line: line_no,
                    column,
                    expected: '&',
                    found: next,
                },
            );
        },
        '|' => if paired {
            Token::Operator(Operator::Or)
        } else {
            return Err(
                LexError::InvalidOperatorContinuation {
                    line: line_no,
                    column,
                    expected: '|',
                    found: next,
                },
            );
        },
        _ => {
            if is_whitespace(c) {
                return Ok(
                    (DataToken { ty: Token::Seperator(Seperator::Whitespace), pos }, p + 1),
                );
            }
            let digits = is_digit(c);
            if !digits && !is_alphabetic(c) {
                return Err(LexError::UnknownCharacter { line: line_no, column, character: c });
            }
            let end = scan_run(buf, start, stop, p, digits);
            let word = slice_subrange(buf.as_slice(), p, end);
            assert(word@ == line.subrange(p - start, end - start));
            let ty = if digits {
                Token::Integer(string_of(word))
            } else {
                match lookup_keyword(word) {
                    Some(k) => Token::Keyword(k),
                    None => Token::Identifier(string_of(word)),
                }
            };
            return Ok((DataToken { ty, pos }, end));
        },
    };
    let width: usize = if paired {
        2
    } else {
        1
    };
    Ok((DataToken { ty, pos }, p + width))
}

/// Scans the line `buf[start..stop]` and appends its tokens, the closing
/// `Newline` included, to `out`.
fn lex_line(
    buf: &Vec<char>,
    start: usize,
    stop: usize,
    line_no: usize,
    out: &mut Vec<DataToken>,
) -> (r: Result<(), LexError>)
    requires
        start <= stop < buf.len(),
    ensures
        match r {
            Ok(()) => prepend(
                tokens_view(old(out)@),
                line_tokens(buf@.subrange(start as int, stop as int), line_no as int),
            ) == Ok::<Seq<DataTokenView>, LexErrorView>(tokens_view(final(out)@)),
            Err(e) => line_tokens(buf@.subrange(start as int, stop as int), line_no as int) == Err::<
                Seq<DataTokenView>,
                LexErrorView,
            >(e@),
        },
{
    let ghost line = buf@.subrange(start as int, stop as int);
    let ghost before = tokens_view(out@);
    let mut p: usize = start;
    while p < stop
        invariant
            start <= p <= stop < buf.len(),
            line == buf@.subrange(start as int, stop as int),
            prepend(before, line_tokens(line, line_no as int)) == prepend(
                tokens_view(out@),
                lex_from(line, line_no as int, p - start),
            ),
        decreases stop - p,
    {
        let ghost emitted = tokens_view(out@);
        match scan_token(buf, start, stop, p, line_no) {
            Ok((token, next)) => {
                out.push(token);
                proof {
                    let rest = lex_from(line, line_no as int, next - start);
                    assert(tokens_view(out@) == emitted.push(token@));
                    assert(lex_from(line, line_no as int, p - start) == prepend(
                        seq![token@],
                        rest,
                    ));
                    if let Ok(tail) = rest {
                        assert(emitted + (seq![token@] + tail) == emitted.push(token@) + tail);
                    }
                }
                p = next;
            },
            Err(e) => {
                return Err(e);
            },
        }
    }
    let ghost emitted = tokens_view(out@);
    let closing = DataToken {
        ty: Token::Seperator(Seperator::Newline),
        pos: (line_no, stop - start + 1),
    };
    out.push(closing);
    proof {
        assert(tokens_view(out@) == emitted.push(closing@));
        assert(emitted + seq![closing@] == emitted.push(closing@));
    }
    Ok(())
}

/// The index of the first line feed in `buf` at or after `start`.
fn find_line_feed(buf: &Vec<char>, start: usize) -> (end: usize)
    requires
        start < buf.len(),
        buf@.last() == '\n',
    ensures
        start <= end < buf.len(),
        buf@[end as int] == '\n',
        forall|k: int| start <= k < end ==> buf@[k] != '\n',
{
    let mut end: usize = start;
    while buf[end] != '\n'
        invariant
            start <= end < buf.len(),
            buf@.last() == '\n',
            forall|k: int| start <= k < end ==> buf@[k] != '\n',
        decreases buf.len() - end,
    {
        end += 1;
    }
    end
}

/// Where a line stops that holds no line feed and is ended at `end`.
proof fn lemma_line_end_is(text: Seq<char>, start: int, end: int)
    requires
        0 <= start <= end <= text.len(),
        forall|k: int| start <= k < end ==> text[k] != '\n',
        end < text.len() ==> text[end] == '\n',
    ensures
        line_end(text, start) == end,
    decreases end - start,
{
    if start < end {
        lemma_line_end_is(text, start + 1, end);
    }
}

/// Turns source text into its tokens.
///
/// The text is cut into lines and every line is scanned from left to right.
/// Each token carries the line and column of its first character, both
/// counted from one, and every line, an empty one too, is closed by a
/// `Newline` token one column behind its last character. Scanning stops at
/// the first character that cannot start or continue a token, and that
/// failure is returned in place of the tokens.
///
/// The result is exactly [`text_tokens`] of the text: the tokens where every
/// line scans, and otherwise the failure of the first line that does not.
/// The tokens come in reading order.
pub fn to_tokens(text: &str) -> (r: Result<Vec<DataToken>, LexError>)
    ensures
        match r {
            Ok(tokens) => text_tokens(text@) == Ok::<Seq<DataTokenView>, LexErrorView>(
                tokens_view(tokens@),
            ),
            Err(e) => text_tokens(text@) == Err::<Seq<DataTokenView>, LexErrorView>(e@),
        },
        r matches Ok(tokens) ==> in_reading_order(tokens_view(tokens@)),
{
    // A line feed behind the last character lets every line end in one.
    let mut buf = chars_of(text);
    buf.push('\n');
    let len = buf.len() - 1;
    let mut out: Vec<DataToken> = Vec::new();
    let mut start: usize = 0;
    let mut line_no: usize = 1;
    assert(tokens_view(out@) == Seq::<DataTokenView>::empty());
    assert(Seq::<DataTokenView>::empty() + text_tokens(text@)->Ok_0 == text_tokens(text@)->Ok_0);
    while start < len
        invariant
            len == text@.len(),
            buf@ == text@.push('\n'),
            start <= len + 1,
            1 <= line_no <= start + 1,
            text_tokens(text@) == prepend(
                tokens_view(out@),
                lex_lines(lines_from(text@, start as int), line_no as int),
            ),
        decreases len + 1 - start,
    {
        let end = find_line_feed(&buf, start);
        let stop = if end < len && start < end && buf[end - 1] == '\r' {
            end - 1
        } else {
            end
        };
        let ghost emitted = tokens_view(out@);
        let ghost line = line_content(text@, start as int, end as int);
        let ghost rest = lines_from(text@, end + 1);
        proof {
            assert forall|k: int| start <= k < end implies text@[k] != '\n' by {
                assert(buf@[k] == text@[k]);
            }
            lemma_line_end_is(text@, start as int, end as int);
            assert(line == buf@.subrange(start as int, stop as int));
            assert(lines_from(text@, start as int) == seq![line] + rest);
            assert((seq![line] + rest).drop_first() == rest);
        }
        match lex_line(&buf, start, stop, line_no, &mut out) {
            Ok(()) => {
                proof {
                    let head = line_tokens(line, line_no as int)->Ok_0;
                    let tail = lex_lines(rest, line_no + 1);
                    if let Ok(more) = tail {
                        assert(emitted + (head + more) == (emitted + head) + more);
                    }
                }
            },
            Err(e) => {
                return Err(e);
            },
        }
        start = end + 1;
        line_no += 1;
    }
    proof {
        assert(tokens_view(out@) + Seq::<DataTokenView>::empty() == tokens_view(out@));
        lemma_reading_order(split_lines(text@), 1);
    }
    Ok(out)
}

} // verus!
