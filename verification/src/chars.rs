//! Character classes and the two fixed tables: single-character tokens and
//! keywords.

use crate::token::{Keyword, Operator, Seperator, Token, TokenView};
use vstd::prelude::*;

verus! {

/// The characters that carry Unicode's `White_Space` property.
pub open spec fn is_whitespace_char(c: char) -> bool {
    let u = c as u32;
    ||| 0x09 <= u <= 0x0D
    ||| u == 0x20
    ||| u == 0x85
    ||| u == 0xA0
    ||| u == 0x1680
    ||| 0x2000 <= u <= 0x200A
    ||| u == 0x2028
    ||| u == 0x2029
    ||| u == 0x202F
    ||| u == 0x205F
    ||| u == 0x3000
}

/// The ASCII decimal digits.
pub open spec fn is_digit_char(c: char) -> bool {
    '0' <= c <= '9'
}

/// The ASCII letters of both cases.
pub open spec fn is_alphabetic_char(c: char) -> bool {
    ('a' <= c <= 'z') || ('A' <= c <= 'Z')
}

/// The token that a character always stands for on its own, if it has one.
pub open spec fn single_char_token(c: char) -> Option<TokenView> {
    if c == '(' {
        Some(TokenView::Seperator(Seperator::ParensOpen))
    } else if c == ')' {
        Some(TokenView::Seperator(Seperator::ParensClosed))
    } else if c == '{' {
        Some(TokenView::Seperator(Seperator::BracesOpen))
    } else if c == '}' {
        Some(TokenView::Seperator(Seperator::BracesClosed))
    } else if c == ':' {
        Some(TokenView::Seperator(Seperator::Colon))
    } else if c == ';' {
        Some(TokenView::Seperator(Seperator::Semicolon))
    } else if c == '.' {
        Some(TokenView::Operator(Operator::Dot))
    } else if c == '+' {
        Some(TokenView::Operator(Operator::Plus))
    } else if c == '*' {
        Some(TokenView::Operator(Operator::Mul))
    } else if c == '/' {
        Some(TokenView::Operator(Operator::Div))
    } else if c == '%' {
        Some(TokenView::Operator(Operator::Remainder))
    } else if c == '^' {
        Some(TokenView::Operator(Operator::Xor))
    } else {
        None
    }
}

/// How a keyword is written.
pub open spec fn keyword_text(k: Keyword) -> Seq<char> {
    match k {
        Keyword::If => seq!['i', 'f'],
        Keyword::Else => seq!['e', 'l', 's', 'e'],
        Keyword::Loop => seq!['l', 'o', 'o', 'p'],
        Keyword::Function => seq!['f', 'n'],
        Keyword::Let => seq!['l', 'e', 't'],
        Keyword::While => seq!['w', 'h', 'i', 'l', 'e'],
        Keyword::Debug => seq!['d', 'e', 'b', 'u', 'g'],
    }
}

/// The keyword that is written exactly as `word`, if there is one.
pub open spec fn keyword_of(word: Seq<char>) -> Option<Keyword> {
    if word == keyword_text(Keyword::If) {
        Some(Keyword::If)
    } else if word == keyword_text(Keyword::Else) {
        Some(Keyword::Else)
    } else if word == keyword_text(Keyword::Loop) {
        Some(Keyword::Loop)
    } else if word == keyword_text(Keyword::Function) {
        Some(Keyword::Function)
    } else if word == keyword_text(Keyword::Let) {
        Some(Keyword::Let)
    } else if word == keyword_text(Keyword::While) {
        Some(Keyword::While)
    } else if word == keyword_text(Keyword::Debug) {
        Some(Keyword::Debug)
    } else {
        None
    }
}

/// Tells whether `c` is white space.
pub fn is_whitespace(c: char) -> (b: bool)
    ensures
        b == is_whitespace_char(c),
{
    let u: u32 = c as u32;
    (0x09 <= u && u <= 0x0D) || u == 0x20 || u == 0x85 || u == 0xA0 || u == 0x1680 || (0x2000 <= u
        && u <= 0x200A) || u == 0x2028 || u == 0x2029 || u == 0x202F || u == 0x205F || u == 0x3000
}

/// Tells whether `c` is an ASCII decimal digit.
pub fn is_digit(c: char) -> (b: bool)
    ensures
        b == is_digit_char(c),
{
    '0' <= c && c <= '9'
}

/// Tells whether `c` is an ASCII letter.
pub fn is_alphabetic(c: char) -> (b: bool)
    ensures
        b == is_alphabetic_char(c),
{
    ('a' <= c && c <= 'z') || ('A' <= c && c <= 'Z')
}

/// Looks `c` up in the table of single-character tokens.
pub fn lookup_single_char(c: char) -> (found: Option<Token>)
    ensures
        found is Some <==> single_char_token(c) is Some,
        found matches Some(t) ==> single_char_token(c) == Some(t@),
{
    match c {
        '(' => Some(Token::Seperator(Seperator::ParensOpen)),
        ')' => Some(Token::Seperator(Seperator::ParensClosed)),
        '{' => Some(Token::Seperator(Seperator::BracesOpen)),
        '}' => Some(Token::Seperator(Seperator::BracesClosed)),
        ':' => Some(Token::Seperator(Seperator::Colon)),
        ';' => Some(Token::Seperator(Seperator::Semicolon)),
        '.' => Some(Token::Operator(Operator::Dot)),
        '+' => Some(Token::Operator(Operator::Plus)),
        '*' => Some(Token::Operator(Operator::Mul)),
        '/' => Some(Token::Operator(Operator::Div)),
        '%' => Some(Token::Operator(Operator::Remainder)),
        '^' => Some(Token::Operator(Operator::Xor)),
        _ => None,
    }
}

/// Tells whether `word` is exactly the characters of `text`.
fn spells(word: &[char], text: &[char]) -> (b: bool)
    ensures
        b == (word@ == text@),
{
    if word.len() != text.len() {
        return false;
    }
    let mut k: usize = 0;
    while k < word.len()
        invariant
            word.len() == text.len(),
            k <= word.len(),
            forall|j: int| 0 <= j < k ==> word@[j] == text@[j],
        decreases word.len() - k,
    {
        if word[k] != text[k] {
            return false;
        }
        k += 1;
    }
    assert(word@ =~= text@);
    true
}

/// Looks `word` up in the table of keywords.
pub fn lookup_keyword(word: &[char]) -> (found: Option<Keyword>)
    ensures
        found == keyword_of(word@),
{
    if spells(word, &['i', 'f']) {
        Some(Keyword::If)
    } else if spells(word, &['e', 'l', 's', 'e']) {
        Some(Keyword::Else)
    } else if spells(word, &['l', 'o', 'o', 'p']) {
        Some(Keyword::Loop)
    } else if spells(word, &['f', 'n']) {
        Some(Keyword::Function)
    } else if spells(word, &['l', 'e', 't']) {
        Some(Keyword::Let)
    } else if spells(word, &['w', 'h', 'i', 'l', 'e']) {
        Some(Keyword::While)
    } else if spells(word, &['d', 'e', 'b', 'u', 'g']) {
        Some(Keyword::Debug)
    } else {
        None
    }
}

} // verus!
