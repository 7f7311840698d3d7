//! The token vocabulary and the mathematical view of each token.

use vstd::prelude::*;

verus! {

/// Structural punctuation and line-level markers.
#[derive(Copy, Clone, Debug, PartialEq, Eq)]
pub enum Seperator {
    ParensOpen,
    ParensClosed,
    BracesOpen,
    BracesClosed,
    Arrow,
    Colon,
    Semicolon,
    Newline,
    Whitespace,
}

/// Arithmetic, comparison, logical and assignment symbols.
#[derive(Copy, Clone, Debug, PartialEq, Eq)]
pub enum Operator {
    Dot,
    Plus,
    Minus,
    Mul,
    Div,
    Remainder,
    And,
    Or,
    Xor,
    Not,
    Equals,
    NotEquals,
    GreaterThan,
    GreaterEquals,
    LesserThan,
    LesserEquals,
    Assign,
}

/// Reserved words.
#[derive(Copy, Clone, Debug, PartialEq, Eq)]
pub enum Keyword {
    If,
    Else,
    Loop,
    Function,
    Let,
    While,
    Debug,
}

/// A classified piece of source text.
///
/// `Identifier` and `Integer` carry the exact characters that were matched;
/// an integer literal is kept as text and is not converted to a number.
#[derive(Debug, PartialEq, Eq)]
pub enum Token {
    Identifier(String),
    Integer(String),
    Seperator(Seperator),
    Operator(Operator),
    Keyword(Keyword),
}

/// A token together with the place where it starts: `(line, column)`, both
/// counted from one.
#[derive(Debug, PartialEq, Eq)]
pub struct DataToken {
    pub ty: Token,
    pub pos: (usize, usize),
}

/// What a [`Token`] is in contracts: its text is a sequence of characters.
pub enum TokenView {
    Identifier(Seq<char>),
    Integer(Seq<char>),
    Seperator(Seperator),
    Operator(Operator),
    Keyword(Keyword),
}

/// What a [`DataToken`] is in contracts: line and column are mathematical
/// integers.
pub struct DataTokenView {
    pub ty: TokenView,
    pub line: int,
    pub column: int,
}

impl View for Token {
    type V = TokenView;

    open spec fn view(&self) -> TokenView {
        match *self {
            Token::Identifier(s) => TokenView::Identifier(s@),
            Token::Integer(s) => TokenView::Integer(s@),
            Token::Seperator(s) => TokenView::Seperator(s),
            Token::Operator(o) => TokenView::Operator(o),
            Token::Keyword(k) => TokenView::Keyword(k),
        }
    }
}

impl View for DataToken {
    type V = DataTokenView;

    open spec fn view(&self) -> DataTokenView {
        DataTokenView { ty: self.ty@, line: self.pos.0 as int, column: self.pos.1 as int }
    }
}

impl Clone for Token {
    fn clone(&self) -> (copy: Self)
        ensures
            copy@ == self@,
    {
        match self {
            Token::Identifier(s) => Token::Identifier(s.clone()),
            Token::Integer(s) => Token::Integer(s.clone()),
            Token::Seperator(s) => Token::Seperator(*s),
            Token::Operator(o) => Token::Operator(*o),
            Token::Keyword(k) => Token::Keyword(*k),
        }
    }
}

impl Clone for DataToken {
    fn clone(&self) -> (copy: Self)
        ensures
            copy@ == self@,
    {
        DataToken { ty: self.ty.clone(), pos: (self.pos.0, self.pos.1) }
    }
}

/// The views of a run of tokens, in order.
pub open spec fn tokens_view(tokens: Seq<DataToken>) -> Seq<DataTokenView> {
    tokens.map_values(|t: DataToken| t@)
}

} // verus!
