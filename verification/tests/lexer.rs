use orbit_lexer::chars::{
    is_alphabetic, is_digit, is_whitespace, lookup_keyword, lookup_single_char,
};
use orbit_lexer::{to_tokens, DataToken, Keyword, LexError, Operator, Seperator, Token};

fn ident(text: &str, line: usize, column: usize) -> DataToken {
    DataToken { ty: Token::Identifier(text.to_string()), pos: (line, column) }
}

fn integer(text: &str, line: usize, column: usize) -> DataToken {
    DataToken { ty: Token::Integer(text.to_string()), pos: (line, column) }
}

fn sep(s: Seperator, line: usize, column: usize) -> DataToken {
    DataToken { ty: Token::Seperator(s), pos: (line, column) }
}

fn op(o: Operator, line: usize, column: usize) -> DataToken {
    DataToken { ty: Token::Operator(o), pos: (line, column) }
}

fn kw(k: Keyword, line: usize, column: usize) -> DataToken {
    DataToken { ty: Token::Keyword(k), pos: (line, column) }
}

fn kinds(text: &str) -> Vec<Token> {
    to_tokens(text).unwrap().into_iter().map(|t| t.ty).collect()
}

/// How many characters of its line a token covers.
fn width(token: &Token) -> usize {
    match token {
        Token::Identifier(s) | Token::Integer(s) => s.chars().count(),
        Token::Keyword(k) => match k {
            Keyword::If | Keyword::Function => 2,
            Keyword::Let => 3,
            Keyword::Else | Keyword::Loop => 4,
            Keyword::While | Keyword::Debug => 5,
        },
        Token::Seperator(Seperator::Newline) => 0,
        Token::Seperator(Seperator::Arrow) => 2,
        Token::Seperator(_) => 1,
        Token::Operator(o) => match o {
            Operator::And
            | Operator::Or
            | Operator::Equals
            | Operator::NotEquals
            | Operator::GreaterEquals
            | Operator::LesserEquals => 2,
            _ => 1,
        },
    }
}

#[test]
fn assignment_statement() {
    assert_eq!(
        to_tokens("let x = 5;\n"),
        Ok(vec![
            kw(Keyword::Let, 1, 1),
            sep(Seperator::Whitespace, 1, 4),
            ident("x", 1, 5),
            sep(Seperator::Whitespace, 1, 6),
            op(Operator::Assign, 1, 7),
            sep(Seperator::Whitespace, 1, 8),
            integer("5", 1, 9),
            sep(Seperator::Semicolon, 1, 10),
            sep(Seperator::Newline, 1, 11),
        ])
    );
}

#[test]
fn arrow_operator() {
    assert_eq!(
        to_tokens("a->b\n"),
        Ok(vec![
            ident("a", 1, 1),
            sep(Seperator::Arrow, 1, 2),
            ident("b", 1, 4),
            sep(Seperator::Newline, 1, 5),
        ])
    );
}

#[test]
fn malformed_combinator() {
    assert_eq!(
        to_tokens("a&b\n"),
        Err(LexError::InvalidOperatorContinuation {
            line: 1,
            column: 2,
            expected: '&',
            found: Some('b'),
        })
    );
}

#[test]
fn empty_line() {
    assert_eq!(to_tokens("\n"), Ok(vec![sep(Seperator::Newline, 1, 1)]));
}

#[test]
fn empty_text_has_no_line() {
    assert_eq!(to_tokens(""), Ok(vec![]));
}

#[test]
fn whitespace_is_not_coalesced() {
    assert_eq!(
        kinds("aa  bb"),
        vec![
            Token::Identifier("aa".to_string()),
            Token::Seperator(Seperator::Whitespace),
            Token::Seperator(Seperator::Whitespace),
            Token::Identifier("bb".to_string()),
            Token::Seperator(Seperator::Newline),
        ]
    );
    assert_eq!(
        to_tokens("aa  bb"),
        Ok(vec![
            ident("aa", 1, 1),
            sep(Seperator::Whitespace, 1, 3),
            sep(Seperator::Whitespace, 1, 4),
            ident("bb", 1, 5),
            sep(Seperator::Newline, 1, 7),
        ])
    );
}

#[test]
fn keyword_takes_precedence() {
    assert_eq!(to_tokens("let"), Ok(vec![kw(Keyword::Let, 1, 1), sep(Seperator::Newline, 1, 4)]));
    assert_eq!(to_tokens("lets"), Ok(vec![ident("lets", 1, 1), sep(Seperator::Newline, 1, 5)]));
    assert_eq!(to_tokens("le"), Ok(vec![ident("le", 1, 1), sep(Seperator::Newline, 1, 3)]));
    assert_eq!(to_tokens("Let"), Ok(vec![ident("Let", 1, 1), sep(Seperator::Newline, 1, 4)]));
}

#[test]
fn every_keyword() {
    assert_eq!(
        kinds("if else loop fn let while debug"),
        vec![
            Token::Keyword(Keyword::If),
            Token::Seperator(Seperator::Whitespace),
            Token::Keyword(Keyword::Else),
            Token::Seperator(Seperator::Whitespace),
            Token::Keyword(Keyword::Loop),
            Token::Seperator(Seperator::Whitespace),
            Token::Keyword(Keyword::Function),
            Token::Seperator(Seperator::Whitespace),
            Token::Keyword(Keyword::Let),
            Token::Seperator(Seperator::Whitespace),
            Token::Keyword(Keyword::While),
            Token::Seperator(Seperator::Whitespace),
            Token::Keyword(Keyword::Debug),
            Token::Seperator(Seperator::Newline),
        ]
    );
}

#[test]
fn keyword_next_to_digits_stays_a_keyword() {
    assert_eq!(
        to_tokens("if1"),
        Ok(vec![kw(Keyword::If, 1, 1), integer("1", 1, 3), sep(Seperator::Newline, 1, 4)])
    );
}

#[test]
fn class_boundary_splits_a_run() {
    assert_eq!(
        to_tokens("10x"),
        Ok(vec![integer("10", 1, 1), ident("x", 1, 3), sep(Seperator::Newline, 1, 4)])
    );
    assert_eq!(
        to_tokens("x10y"),
        Ok(vec![
            ident("x", 1, 1),
            integer("10", 1, 2),
            ident("y", 1, 4),
            sep(Seperator::Newline, 1, 5),
        ])
    );
}

#[test]
fn integer_text_is_kept_as_written() {
    assert_eq!(
        to_tokens("007 99999999999999999999999999"),
        Ok(vec![
            integer("007", 1, 1),
            sep(Seperator::Whitespace, 1, 4),
            integer("99999999999999999999999999", 1, 5),
            sep(Seperator::Newline, 1, 31),
        ])
    );
}

#[test]
fn single_character_table() {
    assert_eq!(
        to_tokens("(){}:;.+*/%^"),
        Ok(vec![
            sep(Seperator::ParensOpen, 1, 1),
            sep(Seperator::ParensClosed, 1, 2),
            sep(Seperator::BracesOpen, 1, 3),
            sep(Seperator::BracesClosed, 1, 4),
            sep(Seperator::Colon, 1, 5),
            sep(Seperator::Semicolon, 1, 6),
            op(Operator::Dot, 1, 7),
            op(Operator::Plus, 1, 8),
            op(Operator::Mul, 1, 9),
            op(Operator::Div, 1, 10),
            op(Operator::Remainder, 1, 11),
            op(Operator::Xor, 1, 12),
            sep(Seperator::Newline, 1, 13),
        ])
    );
}

#[test]
fn single_character_lookup() {
    assert_eq!(lookup_single_char('('), Some(Token::Seperator(Seperator::ParensOpen)));
    assert_eq!(lookup_single_char('^'), Some(Token::Operator(Operator::Xor)));
    assert_eq!(lookup_single_char('.'), Some(Token::Operator(Operator::Dot)));
    assert_eq!(lookup_single_char('='), None);
    assert_eq!(lookup_single_char('-'), None);
    assert_eq!(lookup_single_char('a'), None);
    assert_eq!(lookup_single_char(' '), None);
    let hits = (0..=0x7fu8).filter(|b| lookup_single_char(*b as char).is_some()).count();
    assert_eq!(hits, 12);
}

#[test]
fn keyword_lookup() {
    let word = |s: &str| s.chars().collect::<Vec<char>>();
    assert_eq!(lookup_keyword(&word("if")), Some(Keyword::If));
    assert_eq!(lookup_keyword(&word("else")), Some(Keyword::Else));
    assert_eq!(lookup_keyword(&word("loop")), Some(Keyword::Loop));
    assert_eq!(lookup_keyword(&word("fn")), Some(Keyword::Function));
    assert_eq!(lookup_keyword(&word("let")), Some(Keyword::Let));
    assert_eq!(lookup_keyword(&word("while")), Some(Keyword::While));
    assert_eq!(lookup_keyword(&word("debug")), Some(Keyword::Debug));
    assert_eq!(lookup_keyword(&word("")), None);
    assert_eq!(lookup_keyword(&word("i")), None);
    assert_eq!(lookup_keyword(&word("iff")), None);
    assert_eq!(lookup_keyword(&word("IF")), None);
    assert_eq!(lookup_keyword(&word("function")), None);
}

#[test]
fn pairs_and_their_fallbacks() {
    assert_eq!(to_tokens("=="), Ok(vec![op(Operator::Equals, 1, 1), sep(Seperator::Newline, 1, 3)]));
    assert_eq!(to_tokens("="), Ok(vec![op(Operator::Assign, 1, 1), sep(Seperator::Newline, 1, 2)]));
    assert_eq!(to_tokens("->"), Ok(vec![sep(Seperator::Arrow, 1, 1), sep(Seperator::Newline, 1, 3)]));
    assert_eq!(to_tokens("-"), Ok(vec![op(Operator::Minus, 1, 1), sep(Seperator::Newline, 1, 2)]));
    assert_eq!(
        to_tokens("!="),
        Ok(vec![op(Operator::NotEquals, 1, 1), sep(Seperator::Newline, 1, 3)])
    );
    assert_eq!(to_tokens("!"), Ok(vec![op(Operator::Not, 1, 1), sep(Seperator::Newline, 1, 2)]));
    assert_eq!(
        to_tokens(">="),
        Ok(vec![op(Operator::GreaterEquals, 1, 1), sep(Seperator::Newline, 1, 3)])
    );
    assert_eq!(
        to_tokens(">"),
        Ok(vec![op(Operator::GreaterThan, 1, 1), sep(Seperator::Newline, 1, 2)])
    );
    assert_eq!(to_tokens("&&"), Ok(vec![op(Operator::And, 1, 1), sep(Seperator::Newline, 1, 3)]));
    assert_eq!(to_tokens("||"), Ok(vec![op(Operator::Or, 1, 1), sep(Seperator::Newline, 1, 3)]));
}

#[test]
fn lesser_equals_is_written_with_two_angles() {
    assert_eq!(
        to_tokens("<<"),
        Ok(vec![op(Operator::LesserEquals, 1, 1), sep(Seperator::Newline, 1, 3)])
    );
    assert_eq!(
        to_tokens("<"),
        Ok(vec![op(Operator::LesserThan, 1, 1), sep(Seperator::Newline, 1, 2)])
    );
    assert_eq!(
        to_tokens("<="),
        Ok(vec![
            op(Operator::LesserThan, 1, 1),
            op(Operator::Assign, 1, 2),
            sep(Seperator::Newline, 1, 3),
        ])
    );
}

#[test]
fn pairs_are_taken_from_the_left() {
    assert_eq!(
        to_tokens("==="),
        Ok(vec![
            op(Operator::Equals, 1, 1),
            op(Operator::Assign, 1, 3),
            sep(Seperator::Newline, 1, 4),
        ])
    );
    assert_eq!(
        to_tokens("-->"),
        Ok(vec![
            op(Operator::Minus, 1, 1),
            sep(Seperator::Arrow, 1, 2),
            sep(Seperator::Newline, 1, 4),
        ])
    );
    assert_eq!(
        to_tokens("&&&&"),
        Ok(vec![op(Operator::And, 1, 1), op(Operator::And, 1, 3), sep(Seperator::Newline, 1, 5)])
    );
}

#[test]
fn a_pair_does_not_reach_into_the_next_line() {
    assert_eq!(
        to_tokens("=\n="),
        Ok(vec![
            op(Operator::Assign, 1, 1),
            sep(Seperator::Newline, 1, 2),
            op(Operator::Assign, 2, 1),
            sep(Seperator::Newline, 2, 2),
        ])
    );
    assert_eq!(
        to_tokens("&\n&"),
        Err(LexError::InvalidOperatorContinuation {
            line: 1,
            column: 1,
            expected: '&',
            found: None,
        })
    );
}

#[test]
fn lone_ampersand_and_bar_fail() {
    assert_eq!(
        to_tokens("&"),
        Err(LexError::InvalidOperatorContinuation {
            line: 1,
            column: 1,
            expected: '&',
            found: None,
        })
    );
    assert_eq!(
        to_tokens("x |"),
        Err(LexError::InvalidOperatorContinuation {
            line: 1,
            column: 3,
            expected: '|',
            found: None,
        })
    );
    assert_eq!(
        to_tokens("a|&"),
        Err(LexError::InvalidOperatorContinuation {
            line: 1,
            column: 2,
            expected: '|',
            found: Some('&'),
        })
    );
    assert_eq!(
        to_tokens("&&&"),
        Err(LexError::InvalidOperatorContinuation {
            line: 1,
            column: 3,
            expected: '&',
            found: None,
        })
    );
}

#[test]
fn unknown_characters_fail() {
    assert_eq!(
        to_tokens("a # b"),
        Err(LexError::UnknownCharacter { line: 1, column: 3, character: '#' })
    );
    assert_eq!(
        to_tokens("_x"),
        Err(LexError::UnknownCharacter { line: 1, column: 1, character: '_' })
    );
    assert_eq!(
        to_tokens("\"s\""),
        Err(LexError::UnknownCharacter { line: 1, column: 1, character: '"' })
    );
}

#[test]
fn letters_and_digits_outside_ascii_fail() {
    assert_eq!(
        to_tokens("caf\u{e9}"),
        Err(LexError::UnknownCharacter { line: 1, column: 4, character: '\u{e9}' })
    );
    assert_eq!(
        to_tokens("x\u{b2}"),
        Err(LexError::UnknownCharacter { line: 1, column: 2, character: '\u{b2}' })
    );
    assert_eq!(
        to_tokens("\u{663}"),
        Err(LexError::UnknownCharacter { line: 1, column: 1, character: '\u{663}' })
    );
}

#[test]
fn columns_count_characters_not_bytes() {
    assert_eq!(
        to_tokens("\u{3000}ab\u{a0}1"),
        Ok(vec![
            sep(Seperator::Whitespace, 1, 1),
            ident("ab", 1, 2),
            sep(Seperator::Whitespace, 1, 4),
            integer("1", 1, 5),
            sep(Seperator::Newline, 1, 6),
        ])
    );
}

#[test]
fn the_first_failure_is_returned() {
    assert_eq!(
        to_tokens("a & b # c"),
        Err(LexError::InvalidOperatorContinuation {
            line: 1,
            column: 3,
            expected: '&',
            found: Some(' '),
        })
    );
    assert_eq!(
        to_tokens("ok\n#\n&"),
        Err(LexError::UnknownCharacter { line: 2, column: 1, character: '#' })
    );
}

#[test]
fn failure_position() {
    let e = to_tokens("x\ny\n  |z").unwrap_err();
    assert_eq!(e.pos(), (3, 3));
    let e = to_tokens("x\n$").unwrap_err();
    assert_eq!(e.pos(), (2, 1));
}

#[test]
fn lines_are_numbered_from_one() {
    assert_eq!(
        to_tokens("a\n\nbc\n"),
        Ok(vec![
            ident("a", 1, 1),
            sep(Seperator::Newline, 1, 2),
            sep(Seperator::Newline, 2, 1),
            ident("bc", 3, 1),
            sep(Seperator::Newline, 3, 3),
        ])
    );
}

#[test]
fn last_line_needs_no_line_feed() {
    assert_eq!(to_tokens("a\nb"), to_tokens("a\nb\n"));
    assert_eq!(
        to_tokens("a\nb"),
        Ok(vec![
            ident("a", 1, 1),
            sep(Seperator::Newline, 1, 2),
            ident("b", 2, 1),
            sep(Seperator::Newline, 2, 2),
        ])
    );
}

#[test]
fn carriage_return_before_line_feed_ends_the_line() {
    assert_eq!(
        to_tokens("a\r\nb\r\n"),
        Ok(vec![
            ident("a", 1, 1),
            sep(Seperator::Newline, 1, 2),
            ident("b", 2, 1),
            sep(Seperator::Newline, 2, 2),
        ])
    );
    assert_eq!(to_tokens("\r\n"), Ok(vec![sep(Seperator::Newline, 1, 1)]));
}

#[test]
fn other_carriage_returns_are_white_space() {
    assert_eq!(
        to_tokens("a\rb"),
        Ok(vec![
            ident("a", 1, 1),
            sep(Seperator::Whitespace, 1, 2),
            ident("b", 1, 3),
            sep(Seperator::Newline, 1, 4),
        ])
    );
    assert_eq!(
        to_tokens("a\r"),
        Ok(vec![ident("a", 1, 1), sep(Seperator::Whitespace, 1, 2), sep(Seperator::Newline, 1, 3)])
    );
    assert_eq!(
        to_tokens("a\r\r\n"),
        Ok(vec![ident("a", 1, 1), sep(Seperator::Whitespace, 1, 2), sep(Seperator::Newline, 1, 3)])
    );
}

#[test]
fn lines_are_those_of_the_standard_library() {
    let texts = [
        "", "\n", "\n\n", "a", "a\n", "a\nb", "a\n\nb\n", "\r", "\r\n", "a\r", "a\r\n", "\r\r\n",
        "a\rb\nc", "\n\r", "\n\r\n", "ab cd\r\n\r\nef\n \r", "x\n\n\n", " \n \n",
    ];
    for text in texts {
        let tokens = to_tokens(text).unwrap();
        let closing: Vec<(usize, usize)> = tokens
            .iter()
            .filter(|t| t.ty == Token::Seperator(Seperator::Newline))
            .map(|t| t.pos)
            .collect();
        let expected: Vec<(usize, usize)> =
            text.lines().enumerate().map(|(i, l)| (i + 1, l.chars().count() + 1)).collect();
        assert_eq!(closing, expected, "{:?}", text);
    }
}

#[test]
fn white_space_is_that_of_the_standard_library() {
    for u in 0..=0x10ffffu32 {
        if let Some(c) = char::from_u32(u) {
            assert_eq!(is_whitespace(c), c.is_whitespace(), "{:?}", c);
        }
    }
}

#[test]
fn digits_and_letters_are_the_ascii_ones() {
    for u in 0..=0x10ffffu32 {
        if let Some(c) = char::from_u32(u) {
            assert_eq!(is_digit(c), c.is_ascii_digit(), "{:?}", c);
            assert_eq!(is_alphabetic(c), c.is_ascii_alphabetic(), "{:?}", c);
        }
    }
}

#[test]
fn character_classes_on_chosen_values() {
    assert!(is_whitespace(' '));
    assert!(is_whitespace('\t'));
    assert!(is_whitespace('\u{a0}'));
    assert!(!is_whitespace('a'));
    assert!(!is_whitespace('\u{200b}'));
    assert!(is_digit('0') && is_digit('9'));
    assert!(!is_digit('/') && !is_digit(':'));
    assert!(is_alphabetic('a') && is_alphabetic('z') && is_alphabetic('A') && is_alphabetic('Z'));
    assert!(!is_alphabetic('@') && !is_alphabetic('[') && !is_alphabetic('`') && !is_alphabetic('{'));
}

#[test]
fn columns_increase_along_a_line() {
    let text = "while(x>=10){x=x-1;}  debug -> y\nif a<<b&&c||!d : e!=f";
    let tokens = to_tokens(text).unwrap();
    for pair in tokens.windows(2) {
        assert!(pair[0].pos < pair[1].pos);
        if pair[0].pos.0 == pair[1].pos.0 {
            assert!(pair[0].pos.1 < pair[1].pos.1);
        } else {
            assert_eq!(pair[0].ty, Token::Seperator(Seperator::Newline));
            assert_eq!(pair[1].pos, (pair[0].pos.0 + 1, 1));
        }
    }
    let lengths: Vec<usize> = text.lines().map(|l| l.chars().count()).collect();
    let closing: Vec<&DataToken> =
        tokens.iter().filter(|t| t.ty == Token::Seperator(Seperator::Newline)).collect();
    assert_eq!(closing.len(), 2);
    assert_eq!(closing[0].pos, (1, lengths[0] + 1));
    assert_eq!(closing[1].pos, (2, lengths[1] + 1));
    assert_eq!(tokens.last().unwrap().pos, (2, 22));
}

#[test]
fn tokens_cover_their_line() {
    let lines = ["let x = 5;", "a->b", "aa  bb", "10x", "", "fn f(a:b){a<<b&&!c||d>=e}", "\t x \t"];
    for line in lines {
        let source: Vec<char> = line.chars().collect();
        let tokens = to_tokens(line).unwrap();
        let mut rebuilt = String::new();
        let mut next_column = 1;
        for t in &tokens {
            assert_eq!(t.pos, (1, next_column));
            let w = width(&t.ty);
            let piece: String = source[t.pos.1 - 1..t.pos.1 - 1 + w].iter().collect();
            match &t.ty {
                Token::Identifier(s) | Token::Integer(s) => assert_eq!(&piece, s),
                Token::Seperator(Seperator::Whitespace) => {
                    assert!(piece.chars().all(char::is_whitespace))
                }
                _ => {}
            }
            rebuilt.push_str(&piece);
            next_column += w;
        }
        assert_eq!(rebuilt, line);
        assert_eq!(next_column, source.len() + 1);
    }
}

#[test]
fn clones_are_equal() {
    let tokens = to_tokens("let answer = 42").unwrap();
    let copies: Vec<DataToken> = tokens.iter().map(|t| t.clone()).collect();
    assert_eq!(copies, tokens);
    assert_eq!(tokens[2].ty.clone(), Token::Identifier("answer".to_string()));
}

#[test]
fn tokens_can_be_printed_for_debugging() {
    let tokens = to_tokens("a").unwrap();
    assert_eq!(
        format!("{:?}", tokens),
        "[DataToken { ty: Identifier(\"a\"), pos: (1, 1) }, \
         DataToken { ty: Seperator(Newline), pos: (1, 2) }]"
    );
}
