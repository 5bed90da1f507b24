use expr_jit::lexer::{LexError, Lexer, Token};

fn perform(tokens: &[(Token, &str)], input: &str) {
    let mut lexer = Lexer::new(input);

    let expected = tokens
        .iter()
        .map(|(tkn, ct)| (*tkn, ct.to_string()))
        .collect::<Vec<_>>();

    let mut actual = vec![];
    loop {
        lexer.advance().unwrap();

        actual.push((lexer.token(), lexer.content().to_owned()));
        if lexer.token() == Token::EOF {
            break;
        }
    }
    assert_eq!(expected, actual);
}

#[test]
fn test_empty_input() {
    perform(&[(Token::EOF, "")], "");
}

#[test]
fn test_number() {
    perform(&[(Token::IntNumber, "123123"), (Token::EOF, "")], "123123");
    perform(&[(Token::IntNumber, "0"), (Token::EOF, "")], "0");
    perform(
        &[(Token::FloatNumber, "123.123"), (Token::EOF, "")],
        "123.123",
    );
    perform(&[(Token::FloatNumber, "0,1"), (Token::EOF, "")], "0,1");
}

#[test]
fn test_sign() {
    perform(
        &[
            (Token::Plus, "+"),
            (Token::Minus, "-"),
            (Token::Slash, "/"),
            (Token::Star, "*"),
            (Token::Caret, "^"),
            (Token::Percent, "%"),
            (Token::LParen, "("),
            (Token::RParen, ")"),
            (Token::EOF, ""),
        ],
        "+-/*^%()",
    );
}

#[test]
fn test_expiration() {
    perform(
        &[
            (Token::LParen, "("),
            (Token::IntNumber, "20"),
            (Token::Plus, "+"),
            (Token::IntNumber, "3"),
            (Token::RParen, ")"),
            (Token::Slash, "/"),
            (Token::IntNumber, "13"),
            (Token::Percent, "%"),
            (Token::LParen, "("),
            (Token::FloatNumber, "10.2"),
            (Token::Star, "*"),
            (Token::FloatNumber, "0,1"),
            (Token::RParen, ")"),
            (Token::Star, "*"),
            (Token::LParen, "("),
            (Token::IntNumber, "10"),
            (Token::Caret, "^"),
            (Token::IntNumber, "1"),
            (Token::RParen, ")"),
            (Token::EOF, ""),
        ],
        "(20 + 3) / 13 % (10.2 * 0,1) * (10 ^ 1)",
    );
}

#[test]
fn invalid_character_is_reported_with_its_offset() {
    let mut lexer = Lexer::new("10 * d");
    lexer.advance().unwrap();
    assert_eq!(
        (lexer.token(), lexer.content(), lexer.start_loc()),
        (Token::IntNumber, "10", 0)
    );
    lexer.advance().unwrap();
    assert_eq!(
        (lexer.token(), lexer.content(), lexer.start_loc()),
        (Token::Star, "*", 3)
    );
    assert_eq!(lexer.previous_end_loc(), 2);
    assert_eq!(lexer.advance(), Err(LexError { ch: 'd', offset: 5 }));
    // a failed read leaves the lexer where it was
    assert_eq!(
        (lexer.token(), lexer.content(), lexer.start_loc()),
        (Token::Star, "*", 3)
    );
    assert_eq!(lexer.previous_end_loc(), 2);
}

fn spans(input: &str) -> Vec<(Token, usize, usize, usize)> {
    let mut lexer = Lexer::new(input);
    let mut out = vec![];
    loop {
        lexer.advance().unwrap();
        out.push((
            lexer.token(),
            lexer.previous_end_loc(),
            lexer.start_loc(),
            lexer.start_loc() + lexer.content().len(),
        ));
        if lexer.token() == Token::EOF {
            return out;
        }
    }
}

#[test]
fn new_lexer_stands_before_the_first_token() {
    let lexer = Lexer::new("12 + 3");
    assert_eq!(lexer.token(), Token::EOF);
    assert_eq!(lexer.content(), "");
    assert_eq!(lexer.start_loc(), 0);
    assert_eq!(lexer.previous_end_loc(), 0);
}

#[test]
fn end_of_input_is_read_again_and_again() {
    let mut lexer = Lexer::new("7 ");
    lexer.advance().unwrap();
    assert_eq!(lexer.token(), Token::IntNumber);
    for _ in 0..3 {
        assert_eq!(lexer.advance(), Ok(()));
        assert_eq!(lexer.token(), Token::EOF);
        assert_eq!(lexer.content(), "");
        assert_eq!(lexer.start_loc(), 2);
    }
    assert_eq!(lexer.previous_end_loc(), 2);
}

#[test]
fn empty_and_blank_input_give_end_of_input() {
    assert_eq!(spans(""), vec![(Token::EOF, 0, 0, 0)]);
    assert_eq!(spans("   \t\n"), vec![(Token::EOF, 0, 5, 5)]);
}

#[test]
fn offsets_count_bytes() {
    assert_eq!(
        spans("12 +  3,5"),
        vec![
            (Token::IntNumber, 0, 0, 2),
            (Token::Plus, 2, 3, 4),
            (Token::FloatNumber, 4, 6, 9),
            (Token::EOF, 9, 9, 9),
        ]
    );
}

#[test]
fn unicode_white_space_is_skipped() {
    // U+00A0 takes two bytes, U+2003 and U+3000 three each
    assert_eq!(
        spans("\u{a0}1\u{2003}\u{3000}*\u{85}2\u{1680}"),
        vec![
            (Token::IntNumber, 0, 2, 3),
            (Token::Star, 3, 9, 10),
            (Token::IntNumber, 10, 12, 13),
            (Token::EOF, 13, 16, 16),
        ]
    );
}

#[test]
fn a_number_holds_one_separator_at_most() {
    let mut lexer = Lexer::new("1.2.3");
    lexer.advance().unwrap();
    assert_eq!((lexer.token(), lexer.content()), (Token::FloatNumber, "1.2"));
    assert_eq!(lexer.advance(), Err(LexError { ch: '.', offset: 3 }));

    let mut lexer = Lexer::new("4,,5");
    lexer.advance().unwrap();
    assert_eq!((lexer.token(), lexer.content()), (Token::FloatNumber, "4,"));
    assert_eq!(lexer.advance(), Err(LexError { ch: ',', offset: 2 }));
}

#[test]
fn a_separator_starts_no_number() {
    assert_eq!(Lexer::new(".5").advance(), Err(LexError { ch: '.', offset: 0 }));
    assert_eq!(Lexer::new(" ,5").advance(), Err(LexError { ch: ',', offset: 1 }));
}

#[test]
fn a_number_ends_where_its_digits_end() {
    let mut lexer = Lexer::new("12(3.)");
    let mut seen = vec![];
    loop {
        lexer.advance().unwrap();
        if lexer.token() == Token::EOF {
            break;
        }
        seen.push((lexer.token(), lexer.content().to_string()));
    }
    assert_eq!(
        seen,
        vec![
            (Token::IntNumber, "12".to_string()),
            (Token::LParen, "(".to_string()),
            (Token::FloatNumber, "3.".to_string()),
            (Token::RParen, ")".to_string()),
        ]
    );
}

#[test]
fn a_character_of_several_bytes_is_named_whole() {
    let mut lexer = Lexer::new("1 + \u{e9}2");
    lexer.advance().unwrap();
    lexer.advance().unwrap();
    assert_eq!(lexer.advance(), Err(LexError { ch: '\u{e9}', offset: 4 }));
    assert_eq!(
        Lexer::new("\u{2003}\u{1f600}").advance(),
        Err(LexError { ch: '\u{1f600}', offset: 3 })
    );
    assert_eq!(Lexer::new("x").advance(), Err(LexError { ch: 'x', offset: 0 }));
}

#[test]
fn lexing_twice_gives_the_same_tokens() {
    let input = "(20 + 3) / 13 % (10.2 * 0,1) * (10 ^ 1)";
    assert_eq!(spans(input), spans(input));
}
