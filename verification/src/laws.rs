//! What holds of the tokens of every line and of every text.

use crate::chars::{is_alphabetic_char, keyword_of, keyword_text};
use crate::error::LexErrorView;
use crate::grammar::{
    lemma_step_width,
    lex_from,
    lex_lines,
    line_tokens,
    newline_token,
    run_end,
    step_at,
    word_token,
    Step,
};
use crate::token::{DataTokenView, Keyword, Operator, Seperator, TokenView};
use vstd::prelude::*;

verus! {

/// Whether `t` is the token that closes a line.
pub open spec fn is_newline(t: DataTokenView) -> bool {
    t.ty == TokenView::Seperator(Seperator::Newline)
}

/// Whether `a` stands before `b` in reading order: on an earlier line, or on
/// the same line in an earlier column.
pub open spec fn stands_before(a: DataTokenView, b: DataTokenView) -> bool {
    a.line < b.line || (a.line == b.line && a.column < b.column)
}

/// Whether each token of `tokens` stands before all that follow it.
pub open spec fn in_reading_order(tokens: Seq<DataTokenView>) -> bool {
    forall|j: int, k: int| 0 <= j < k < tokens.len() ==> stands_before(tokens[j], tokens[k])
}

/// How an operator is written.
pub open spec fn operator_text(o: Operator) -> Seq<char> {
    match o {
        Operator::Dot => seq!['.'],
        Operator::Plus => seq!['+'],
        Operator::Minus => seq!['-'],
        Operator::Mul => seq!['*'],
        Operator::Div => seq!['/'],
        Operator::Remainder => seq!['%'],
        Operator::And => seq!['&', '&'],
        Operator::Or => seq!['|', '|'],
        Operator::Xor => seq!['^'],
        Operator::Not => seq!['!'],
        Operator::Equals => seq!['=', '='],
        Operator::NotEquals => seq!['!', '='],
        Operator::GreaterThan => seq!['>'],
        Operator::GreaterEquals => seq!['>', '='],
        Operator::LesserThan => seq!['<'],
        Operator::LesserEquals => seq!['<', '<'],
        Operator::Assign => seq!['='],
    }
}

/// The characters that `token` stands for in `line`.
///
/// Words, numbers, operators and punctuation say themselves how they are
/// written. A `Whitespace` token does not say which white space it was: that
/// one character is taken from `line` at the token's column. A `Newline`
/// stands for no character of the line.
pub open spec fn spelling(token: DataTokenView, line: Seq<char>) -> Seq<char> {
    match token.ty {
        TokenView::Identifier(text) => text,
        TokenView::Integer(text) => text,
        TokenView::Keyword(k) => keyword_text(k),
        TokenView::Operator(o) => operator_text(o),
        TokenView::Seperator(s) => match s {
            Seperator::ParensOpen => seq!['('],
            Seperator::ParensClosed => seq![')'],
            Seperator::BracesOpen => seq!['{'],
            Seperator::BracesClosed => seq!['}'],
            Seperator::Arrow => seq!['-', '>'],
            Seperator::Colon => seq![':'],
            Seperator::Semicolon => seq![';'],
            Seperator::Newline => Seq::empty(),
            Seperator::Whitespace => seq![line[token.column - 1]],
        },
    }
}

/// The spellings of `tokens`, one after the other.
pub open spec fn reassemble(tokens: Seq<DataTokenView>, line: Seq<char>) -> Seq<char>
    decreases tokens.len(),
{
    if tokens.len() == 0 {
        Seq::empty()
    } else {
        spelling(tokens[0], line) + reassemble(tokens.drop_first(), line)
    }
}

/// The token that starts at index `i` is spelled as the line is from there.
proof fn lemma_step_spelling(line: Seq<char>, line_no: int, i: int)
    requires
        0 <= i < line.len(),
        step_at(line, i) is Emit,
    ensures
        ({
            let ty = step_at(line, i)->ty;
            let width = step_at(line, i)->width;
            &&& 1 <= width <= line.len() - i
            &&& ty != TokenView::Seperator(Seperator::Newline)
            &&& spelling(DataTokenView { ty, line: line_no, column: i + 1 }, line)
                == line.subrange(i, i + width)
        }),
{
    lemma_step_width(line, i);
    let ty = step_at(line, i)->ty;
    let width = step_at(line, i)->width;
    let token = DataTokenView { ty, line: line_no, column: i + 1 };
    assert(spelling(token, line) =~= line.subrange(i, i + width));
}

/// The shape of the tokens from index `i` on: columns grow, the last token is
/// the closing `Newline`, and together they spell the rest of the line.
proof fn lemma_lex_from_shape(line: Seq<char>, line_no: int, i: int)
    requires
        0 <= i <= line.len(),
        lex_from(line, line_no, i) is Ok,
    ensures
        ({
            let tokens = lex_from(line, line_no, i)->Ok_0;
            &&& tokens.len() >= 1
            &&& tokens.last() == newline_token(line, line_no)
            &&& forall|k: int|
                0 <= k < tokens.len() ==> (#[trigger] tokens[k]).line == line_no && i + 1
                    <= tokens[k].column
            &&& forall|k: int|
                0 <= k < tokens.len() - 1 ==> !is_newline(#[trigger] tokens[k]) && tokens[k].column
                    <= line.len()
            &&& forall|j: int, k: int|
                0 <= j < k < tokens.len() ==> (#[trigger] tokens[j]).column
                    < (#[trigger] tokens[k]).column
            &&& reassemble(tokens, line) == line.subrange(i, line.len() as int)
        }),
    decreases line.len() - i,
{
    let tokens = lex_from(line, line_no, i)->Ok_0;
    if i == line.len() {
        assert(tokens == seq![newline_token(line, line_no)]);
        assert(reassemble(tokens.drop_first(), line) == Seq::<char>::empty());
        assert(reassemble(tokens, line) =~= line.subrange(i, line.len() as int));
    } else {
        lemma_step_spelling(line, line_no, i);
        let ty = step_at(line, i)->ty;
        let width = step_at(line, i)->width;
        let first = DataTokenView { ty, line: line_no, column: i + 1 };
        let rest = lex_from(line, line_no, i + width)->Ok_0;
        lemma_lex_from_shape(line, line_no, i + width);
        assert(tokens == seq![first] + rest);
        assert(tokens.drop_first() == rest);
        assert forall|j: int, k: int| 0 <= j < k < tokens.len() implies (#[trigger] tokens[j]).column
            < (#[trigger] tokens[k]).column by {
            assert(tokens[k] == rest[k - 1]);
            if j > 0 {
                assert(tokens[j] == rest[j - 1]);
            }
        }
        assert forall|k: int| 0 <= k < tokens.len() - 1 implies !is_newline(#[trigger] tokens[k])
            && tokens[k].column <= line.len() by {
            if k > 0 {
                assert(tokens[k] == rest[k - 1]);
            }
        }
        assert forall|k: int| 0 <= k < tokens.len() implies (#[trigger] tokens[k]).line == line_no
            && i + 1 <= tokens[k].column by {
            if k > 0 {
                assert(tokens[k] == rest[k - 1]);
            }
        }
        assert(tokens.last() == rest.last());
        assert(reassemble(tokens, line) =~= line.subrange(i, line.len() as int));
    }
}

/// Along a line the columns grow strictly, and the line is closed by one
/// `Newline`.
///
/// Of the tokens of a line that scans without failure: all carry the line's
/// number; the first stands in column 1; each stands in a later column than
/// the one before it; the last is a `Newline` in the column behind the last
/// character, which is column 1 for an empty line; and no other token is a
/// `Newline`.
pub proof fn lemma_columns_increase(line: Seq<char>, line_no: int)
    requires
        line_tokens(line, line_no) is Ok,
    ensures
        ({
            let tokens = line_tokens(line, line_no)->Ok_0;
            &&& tokens.len() >= 1
            &&& tokens[0].column == 1
            &&& forall|k: int| 0 <= k < tokens.len() ==> (#[trigger] tokens[k]).line == line_no
            &&& forall|j: int, k: int|
                0 <= j < k < tokens.len() ==> (#[trigger] tokens[j]).column
                    < (#[trigger] tokens[k]).column
            &&& is_newline(tokens.last())
            &&& tokens.last().column == line.len() + 1
            &&& forall|k: int| 0 <= k < tokens.len() - 1 ==> !is_newline(#[trigger] tokens[k])
        }),
{
    lemma_lex_from_shape(line, line_no, 0);
    if line.len() > 0 {
        lemma_step_width(line, 0);
    }
}

/// The tokens of a line spell the line.
///
/// Putting the spellings of a line's tokens one after the other, with the
/// line's own character in the place of each `Whitespace` token, gives the
/// line back: no character is skipped and none is read twice.
pub proof fn lemma_tokens_cover_line(line: Seq<char>, line_no: int)
    requires
        line_tokens(line, line_no) is Ok,
    ensures
        reassemble(line_tokens(line, line_no)->Ok_0, line) == line,
{
    lemma_lex_from_shape(line, line_no, 0);
    assert(line.subrange(0, line.len() as int) == line);
}

/// Every keyword is found under its own spelling, so a run of letters that
/// spells a keyword is that keyword and never an identifier.
pub proof fn lemma_keyword_spelling(k: Keyword)
    ensures
        keyword_of(keyword_text(k)) == Some(k),
        word_token(keyword_text(k)) == TokenView::Keyword(k),
{
    let text = keyword_text(k);
    assert(text.len() == match k {
        Keyword::If | Keyword::Function => 2int,
        Keyword::Let => 3int,
        Keyword::Else | Keyword::Loop => 4int,
        Keyword::While | Keyword::Debug => 5int,
    });
    assert(text[0] == match k {
        Keyword::If => 'i',
        Keyword::Else => 'e',
        Keyword::Loop | Keyword::Let => 'l',
        Keyword::Function => 'f',
        Keyword::While => 'w',
        Keyword::Debug => 'd',
    });
    assert(keyword_text(Keyword::Loop)[1] == 'o');
    assert(keyword_text(Keyword::Let)[1] == 'e');
    assert(keyword_text(Keyword::If)[0] == 'i');
    assert(keyword_text(Keyword::Function)[0] == 'f');
    assert(keyword_text(Keyword::Else)[0] == 'e');
    assert(keyword_text(Keyword::While)[0] == 'w');
    assert(keyword_text(Keyword::Debug)[0] == 'd');
}

/// The tokens from index `i` on hold no identifier that spells a keyword.
proof fn lemma_lex_from_words(line: Seq<char>, line_no: int, i: int)
    requires
        0 <= i <= line.len(),
        lex_from(line, line_no, i) is Ok,
    ensures
        ({
            let tokens = lex_from(line, line_no, i)->Ok_0;
            forall|k: int|
                0 <= k < tokens.len() ==> match (#[trigger] tokens[k]).ty {
                    TokenView::Identifier(text) => {
                        &&& keyword_of(text) is None
                        &&& text.len() >= 1
                        &&& text == line.subrange(
                            tokens[k].column - 1,
                            tokens[k].column - 1 + text.len(),
                        )
                        &&& forall|m: int| 0 <= m < text.len() ==> is_alphabetic_char(text[m])
                    },
                    TokenView::Keyword(word) => keyword_text(word) == line.subrange(
                        tokens[k].column - 1,
                        tokens[k].column - 1 + keyword_text(word).len(),
                    ),
                    _ => true,
                }
        }),
    decreases line.len() - i,
{
    let tokens = lex_from(line, line_no, i)->Ok_0;
    if i < line.len() {
        lemma_step_spelling(line, line_no, i);
        let ty = step_at(line, i)->ty;
        let width = step_at(line, i)->width;
        let first = DataTokenView { ty, line: line_no, column: i + 1 };
        let rest = lex_from(line, line_no, i + width)->Ok_0;
        lemma_lex_from_words(line, line_no, i + width);
        assert(tokens == seq![first] + rest);
        if ty is Identifier {
            lemma_run_letters(line, i + 1);
            let text = ty->Identifier_0;
            assert forall|m: int| 0 <= m < text.len() implies is_alphabetic_char(text[m]) by {
                assert(text[m] == line[i + m]);
            }
        }
        assert forall|k: int| 0 <= k < tokens.len() implies match (#[trigger] tokens[k]).ty {
            TokenView::Identifier(text) => {
                &&& keyword_of(text) is None
                &&& text.len() >= 1
                &&& text == line.subrange(tokens[k].column - 1, tokens[k].column - 1 + text.len())
                &&& forall|m: int| 0 <= m < text.len() ==> is_alphabetic_char(text[m])
            },
            TokenView::Keyword(word) => keyword_text(word) == line.subrange(
                tokens[k].column - 1,
                tokens[k].column - 1 + keyword_text(word).len(),
            ),
            _ => true,
        } by {
            if k > 0 {
                assert(tokens[k] == rest[k - 1]);
            }
        }
    }
}

/// A run of letters holds letters only.
proof fn lemma_run_letters(line: Seq<char>, i: int)
    requires
        0 <= i <= line.len(),
    ensures
        forall|m: int| i <= m < run_end(line, i, false) ==> is_alphabetic_char(line[m]),
    decreases line.len() - i,
{
    if i < line.len() && is_alphabetic_char(line[i]) {
        lemma_run_letters(line, i + 1);
    }
}

/// A run of letters runs on while letters follow.
proof fn lemma_run_of_letters(line: Seq<char>, i: int)
    requires
        0 <= i <= line.len(),
        forall|m: int| i <= m < line.len() ==> is_alphabetic_char(line[m]),
    ensures
        run_end(line, i, false) == line.len(),
    decreases line.len() - i,
{
    if i < line.len() {
        lemma_run_of_letters(line, i + 1);
    }
}

/// A line that is one word gives one word token.
///
/// Where a line holds letters only, and at least one, its tokens are the
/// token of that word in column 1 and the closing `Newline`: the keyword
/// where the line spells one, and else the identifier.
pub proof fn lemma_word_line(line: Seq<char>, line_no: int)
    requires
        line.len() >= 1,
        forall|m: int| 0 <= m < line.len() ==> is_alphabetic_char(line[m]),
    ensures
        line_tokens(line, line_no) == Ok::<Seq<DataTokenView>, LexErrorView>(
            seq![
                DataTokenView { ty: word_token(line), line: line_no, column: 1 },
                newline_token(line, line_no),
            ],
        ),
{
    lemma_run_of_letters(line, 1);
    assert(line.subrange(0, line.len() as int) == line);
    assert(is_alphabetic_char(line[0]));
    let first = DataTokenView { ty: word_token(line), line: line_no, column: 1 };
    assert(step_at(line, 0) == Step::Emit { ty: word_token(line), width: line.len() as int });
    assert(lex_from(line, line_no, line.len() as int) == Ok::<Seq<DataTokenView>, LexErrorView>(
        seq![newline_token(line, line_no)],
    ));
    assert(seq![first] + seq![newline_token(line, line_no)] == seq![
        first,
        newline_token(line, line_no),
    ]);
}

/// A keyword is never taken for an identifier.
///
/// In a line that scans without failure every `Identifier` is a run of
/// letters of the line, at least one, whose spelling is that of no keyword;
/// and every `Keyword` stands where the line spells it.
pub proof fn lemma_keyword_precedence(line: Seq<char>, line_no: int)
    requires
        line_tokens(line, line_no) is Ok,
    ensures
        ({
            let tokens = line_tokens(line, line_no)->Ok_0;
            forall|k: int|
                0 <= k < tokens.len() ==> match (#[trigger] tokens[k]).ty {
                    TokenView::Identifier(text) => {
                        &&& keyword_of(text) is None
                        &&& text.len() >= 1
                        &&& text == line.subrange(
                            tokens[k].column - 1,
                            tokens[k].column - 1 + text.len(),
                        )
                        &&& forall|m: int| 0 <= m < text.len() ==> is_alphabetic_char(text[m])
                    },
                    TokenView::Keyword(word) => keyword_text(word) == line.subrange(
                        tokens[k].column - 1,
                        tokens[k].column - 1 + keyword_text(word).len(),
                    ),
                    _ => true,
                }
        }),
{
    lemma_lex_from_words(line, line_no, 0);
}

/// The tokens of a text stand in reading order.
///
/// Of the tokens of `lines`, numbered from `first_line_no` on, where no line
/// fails: each stands before all that follow it, and each carries the number
/// of one of the lines.
pub proof fn lemma_reading_order(lines: Seq<Seq<char>>, first_line_no: int)
    requires
        lex_lines(lines, first_line_no) is Ok,
    ensures
        in_reading_order(lex_lines(lines, first_line_no)->Ok_0),
        forall|k: int|
            0 <= k < lex_lines(lines, first_line_no)->Ok_0.len() ==> first_line_no <= (
            #[trigger] lex_lines(lines, first_line_no)->Ok_0[k]).line < first_line_no + lines.len(),
    decreases lines.len(),
{
    let tokens = lex_lines(lines, first_line_no)->Ok_0;
    if lines.len() > 0 {
        let head = line_tokens(lines[0], first_line_no)->Ok_0;
        let rest = lex_lines(lines.drop_first(), first_line_no + 1)->Ok_0;
        lemma_columns_increase(lines[0], first_line_no);
        lemma_reading_order(lines.drop_first(), first_line_no + 1);
        assert(tokens == head + rest);
        assert forall|k: int| 0 <= k < tokens.len() implies first_line_no <= (
        #[trigger] tokens[k]).line < first_line_no + lines.len() by {
            if k >= head.len() {
                assert(tokens[k] == rest[k - head.len()]);
            } else {
                assert(tokens[k] == head[k]);
            }
        }
        assert forall|j: int, k: int| 0 <= j < k < tokens.len() implies stands_before(
            tokens[j],
            tokens[k],
        ) by {
            if k < head.len() {
                assert(tokens[j] == head[j]);
                assert(tokens[k] == head[k]);
            } else if j < head.len() {
                assert(tokens[j] == head[j]);
                assert(tokens[k] == rest[k - head.len()]);
            } else {
                assert(tokens[j] == rest[j - head.len()]);
                assert(tokens[k] == rest[k - head.len()]);
            }
        }
    }
}

} // verus!
