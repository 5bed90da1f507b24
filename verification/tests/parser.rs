use expr_jit::lexer::Lexer;
use expr_jit::parser::parse_exp;

fn perform_test(input: &str, ir_foot_print: &str) {
    let mut lexer = Lexer::new(input);
    lexer.advance().unwrap();
    assert_eq!(parse_exp(&mut lexer).unwrap().to_text(), ir_foot_print);
}

#[test]
fn test_exp() {
    perform_test(
        "10 * 1 + -2 / 10,1 % 0.1 ^ 1",
        "((10 * 1) + ((-2 / 10.1) % (0.1 ^ 1)))",
    );
    perform_test("13", "13");
    perform_test("10 - 1", "(10 - 1)");
    perform_test("-10 +  -1", "(-10 + -1)");
    perform_test("10 - (1 * 2)", "(10 - (1 * 2))");
    perform_test("(1 * 2) + 10", "((1 * 2) + 10)");
    perform_test("10", "10");
    perform_test(
        "(1 + 2) * 10 * (3 - 10^2) ",
        "(((1 + 2) * 10) * (3 - (10 ^ 2)))",
    );
}

use expr_jit::ast::{Decimal, Exp, Op, Sequence, Val};
use expr_jit::lexer::{LexError, Token};
use expr_jit::parser::{make_exp, parse_number, ParseError, SyntaxError, SyntaxKind};

fn parse(input: &str) -> Result<Sequence, ParseError> {
    let mut lexer = Lexer::new(input);
    lexer.advance().unwrap();
    parse_exp(&mut lexer)
}

fn syntax(kind: SyntaxKind, offset: usize, text: &str) -> ParseError {
    ParseError::Syntax(SyntaxError { kind, offset, text: text.to_string() })
}

fn lit(v: i64) -> Exp {
    Exp::Val(Val::Int(v))
}

fn node(op: Op, left: Exp, right: Exp) -> Exp {
    Exp::Exp { op, left: Box::new(left), right: Box::new(right) }
}

fn fraction(negative: bool, mantissa: u128, scale: usize) -> Val {
    Val::Float(Decimal { negative, mantissa, scale })
}

#[test]
fn operator_ranks() {
    assert_eq!(Op::Add.order(), 3);
    assert_eq!(Op::Sub.order(), 3);
    assert_eq!(Op::Mul.order(), 2);
    assert_eq!(Op::Mod.order(), 2);
    assert_eq!(Op::Div.order(), 2);
    assert_eq!(Op::Pow.order(), 1);
}

#[test]
fn a_single_literal_is_handed_back_as_an_operand() {
    assert_eq!(parse("13"), Ok(Sequence::Operand(Val::Int(13))));
    assert_eq!(parse("-1.0"), Ok(Sequence::Operand(fraction(true, 10, 1))));
    assert_eq!(parse("((7))"), Ok(Sequence::Operand(Val::Int(7))));
    assert_eq!(parse("- 5"), Ok(Sequence::Operand(Val::Int(-5))));
    assert_eq!(parse("0,25"), Ok(Sequence::Operand(fraction(false, 25, 2))));
    assert_eq!(parse("007"), Ok(Sequence::Operand(Val::Int(7))));
    assert_eq!(parse("3."), Ok(Sequence::Operand(fraction(false, 3, 0))));
}

#[test]
fn trees_follow_rank_and_lean_left() {
    assert_eq!(
        parse("1 - 2 - 3"),
        Ok(Sequence::Exp(node(Op::Sub, node(Op::Sub, lit(1), lit(2)), lit(3))))
    );
    assert_eq!(
        parse("2 ^ 3 ^ 2"),
        Ok(Sequence::Exp(node(Op::Pow, node(Op::Pow, lit(2), lit(3)), lit(2))))
    );
    assert_eq!(
        parse("1 + 2 * 3 ^ 4"),
        Ok(Sequence::Exp(node(
            Op::Add,
            lit(1),
            node(Op::Mul, lit(2), node(Op::Pow, lit(3), lit(4)))
        )))
    );
    assert_eq!(
        parse("8 / 4 % 3 * 2"),
        Ok(Sequence::Exp(node(
            Op::Mul,
            node(Op::Mod, node(Op::Div, lit(8), lit(4)), lit(3)),
            lit(2)
        )))
    );
    assert_eq!(
        parse("1 - -2"),
        Ok(Sequence::Exp(node(Op::Sub, lit(1), lit(-2))))
    );
}

#[test]
fn parsing_twice_gives_the_same_tree() {
    let input = "10 * 1 + -2 / 10,1 % 0.1 ^ 1";
    assert_eq!(parse(input), parse(input));
    assert!(parse(input).is_ok());
}

#[test]
fn parsing_stops_at_an_unmatched_closing_parenthesis() {
    let mut lexer = Lexer::new("1 + 2) * 3");
    lexer.advance().unwrap();
    assert_eq!(
        parse_exp(&mut lexer),
        Ok(Sequence::Exp(node(Op::Add, lit(1), lit(2))))
    );
    assert_eq!(lexer.token(), Token::RParen);
    assert_eq!(lexer.start_loc(), 5);
}

#[test]
fn parsing_stops_at_the_end_of_the_input() {
    let mut lexer = Lexer::new("(1 + 2) ");
    lexer.advance().unwrap();
    assert!(parse_exp(&mut lexer).is_ok());
    assert_eq!(lexer.token(), Token::EOF);
    assert_eq!(lexer.start_loc(), 8);
}

#[test]
fn empty_expressions_are_errors() {
    assert_eq!(parse(""), Err(syntax(SyntaxKind::EmptyExpression, 0, "")));
    assert_eq!(parse("  "), Err(syntax(SyntaxKind::EmptyExpression, 2, "")));
    assert_eq!(parse("()"), Err(syntax(SyntaxKind::EmptyExpression, 1, ")")));
    assert_eq!(parse(")"), Err(syntax(SyntaxKind::EmptyExpression, 0, ")")));
    // a lexer that has read nothing stands at an empty token
    let mut lexer = Lexer::new("1 + 2");
    assert_eq!(
        parse_exp(&mut lexer),
        Err(syntax(SyntaxKind::EmptyExpression, 0, ""))
    );
}

#[test]
fn misplaced_tokens_are_errors() {
    assert_eq!(parse("+ 1"), Err(syntax(SyntaxKind::UnexpectedToken, 0, "+")));
    assert_eq!(parse("* 3"), Err(syntax(SyntaxKind::UnexpectedToken, 0, "*")));
    assert_eq!(parse("1 + * 2"), Err(syntax(SyntaxKind::UnexpectedToken, 4, "*")));
    assert_eq!(parse("1 2"), Err(syntax(SyntaxKind::UnexpectedToken, 2, "2")));
    assert_eq!(parse("1 (2)"), Err(syntax(SyntaxKind::UnexpectedToken, 2, "(")));
    assert_eq!(parse("(1) 2.5"), Err(syntax(SyntaxKind::UnexpectedToken, 4, "2.5")));
    assert_eq!(parse("(1)(2)"), Err(syntax(SyntaxKind::UnexpectedToken, 3, "(")));
    assert_eq!(parse("1 +"), Err(syntax(SyntaxKind::UnexpectedToken, 3, "")));
    assert_eq!(parse("(1 +)"), Err(syntax(SyntaxKind::UnexpectedToken, 4, ")")));
    assert_eq!(parse("(+)"), Err(syntax(SyntaxKind::UnexpectedToken, 1, "+")));
}

#[test]
fn unterminated_parentheses_are_errors() {
    assert_eq!(parse("(1 + 2"), Err(syntax(SyntaxKind::UnterminatedParen, 6, "")));
    assert_eq!(parse("((1)"), Err(syntax(SyntaxKind::UnterminatedParen, 4, "")));
    assert_eq!(parse("2 * (3 "), Err(syntax(SyntaxKind::UnterminatedParen, 7, "")));
}

#[test]
fn malformed_numbers_are_errors() {
    assert_eq!(parse("- (1)"), Err(syntax(SyntaxKind::MalformedNumber, 2, "(")));
    assert_eq!(parse("--1"), Err(syntax(SyntaxKind::MalformedNumber, 1, "-")));
    assert_eq!(parse("1 + -"), Err(syntax(SyntaxKind::MalformedNumber, 5, "")));
    assert_eq!(
        parse("9223372036854775808"),
        Err(syntax(SyntaxKind::MalformedNumber, 0, "9223372036854775808"))
    );
    assert_eq!(
        parse("2 * -9223372036854775808"),
        Err(syntax(SyntaxKind::MalformedNumber, 5, "9223372036854775808"))
    );
    assert_eq!(
        parse("340282366920938463463374607431768211456.0"),
        Err(syntax(
            SyntaxKind::MalformedNumber,
            0,
            "340282366920938463463374607431768211456.0"
        ))
    );
}

#[test]
fn numbers_at_the_limits() {
    assert_eq!(
        parse("9223372036854775807"),
        Ok(Sequence::Operand(Val::Int(i64::MAX)))
    );
    assert_eq!(
        parse("-9223372036854775807"),
        Ok(Sequence::Operand(Val::Int(-i64::MAX)))
    );
    assert_eq!(
        parse("34028236692093846346337460743176821145.5"),
        Ok(Sequence::Operand(fraction(false, u128::MAX, 1)))
    );
    assert_eq!(
        parse("0.000000000000000000000000000000000000000001"),
        Ok(Sequence::Operand(fraction(false, 1, 42)))
    );
}

#[test]
fn lexical_errors_pass_through_the_parser() {
    assert_eq!(
        parse("10 * d"),
        Err(ParseError::Lex(LexError { ch: 'd', offset: 5 }))
    );
    assert_eq!(
        parse("(1 + $)"),
        Err(ParseError::Lex(LexError { ch: '$', offset: 5 }))
    );
    assert_eq!(
        parse("1.2.3"),
        Err(ParseError::Lex(LexError { ch: '.', offset: 3 }))
    );
    // the error is found where the parser has come to
    assert_eq!(parse("1 2 $"), Err(syntax(SyntaxKind::UnexpectedToken, 2, "2")));
}

#[test]
fn after_a_failure_the_lexer_stands_at_the_offending_token() {
    let mut lexer = Lexer::new("(1 + 2) 3 +");
    lexer.advance().unwrap();
    assert_eq!(
        parse_exp(&mut lexer),
        Err(syntax(SyntaxKind::UnexpectedToken, 8, "3"))
    );
    assert_eq!((lexer.token(), lexer.start_loc()), (Token::IntNumber, 8));

    let mut lexer = Lexer::new("4 * ?");
    lexer.advance().unwrap();
    assert_eq!(
        parse_exp(&mut lexer),
        Err(ParseError::Lex(LexError { ch: '?', offset: 4 }))
    );
    assert_eq!((lexer.token(), lexer.start_loc()), (Token::Star, 2));
}

#[test]
fn parse_number_reads_the_current_token() {
    let mut lexer = Lexer::new("42 1,50 +");
    lexer.advance().unwrap();
    assert_eq!(parse_number(false, &lexer), Ok(Val::Int(42)));
    assert_eq!(parse_number(true, &lexer), Ok(Val::Int(-42)));
    lexer.advance().unwrap();
    assert_eq!(parse_number(false, &lexer), Ok(fraction(false, 150, 2)));
    assert_eq!(parse_number(true, &lexer), Ok(fraction(true, 150, 2)));
    lexer.advance().unwrap();
    assert_eq!(
        parse_number(false, &lexer),
        Err(syntax(SyntaxKind::MalformedNumber, 8, "+"))
    );
}

#[test]
fn make_exp_joins_the_lowest_rank_first() {
    let items = vec![
        Sequence::Operand(Val::Int(1)),
        Sequence::Op(Op::Add),
        Sequence::Exp(node(Op::Sub, lit(5), lit(4))),
        Sequence::Op(Op::Mul),
        Sequence::Operand(Val::Int(3)),
    ];
    assert_eq!(
        make_exp(items),
        Some(node(
            Op::Add,
            lit(1),
            node(Op::Mul, node(Op::Sub, lit(5), lit(4)), lit(3))
        ))
    );
    assert_eq!(make_exp(vec![Sequence::Operand(Val::Int(9))]), Some(lit(9)));
}

#[test]
fn make_exp_refuses_a_run_that_does_not_alternate() {
    assert_eq!(make_exp(vec![]), None);
    assert_eq!(make_exp(vec![Sequence::Op(Op::Add)]), None);
    assert_eq!(
        make_exp(vec![Sequence::Operand(Val::Int(1)), Sequence::Op(Op::Add)]),
        None
    );
    assert_eq!(
        make_exp(vec![
            Sequence::Op(Op::Mul),
            Sequence::Operand(Val::Int(1)),
            Sequence::Operand(Val::Int(2)),
        ]),
        None
    );
    assert_eq!(
        make_exp(vec![
            Sequence::Operand(Val::Int(1)),
            Sequence::Operand(Val::Int(2)),
            Sequence::Operand(Val::Int(3)),
        ]),
        None
    );
}

#[test]
fn sequence_items_give_what_they_hold() {
    let op = Sequence::Op(Op::Div);
    let val = Sequence::Operand(Val::Int(3));
    let exp = Sequence::Exp(node(Op::Add, lit(1), lit(2)));
    assert_eq!((op.op(), op.val(), op.clone().exp()), (Some(Op::Div), None, None));
    assert_eq!(
        (val.op(), val.val(), val.clone().exp()),
        (None, Some(Val::Int(3)), Some(lit(3)))
    );
    assert_eq!(
        (exp.op(), exp.val(), exp.clone().exp()),
        (None, None, Some(node(Op::Add, lit(1), lit(2))))
    );
    assert_eq!(op.to_text(), "/");
    assert_eq!(val.to_text(), "3");
    assert_eq!(exp.to_text(), "(1 + 2)");
}

#[test]
fn text_of_values() {
    assert_eq!(Val::Int(0).to_text(), "0");
    assert_eq!(Val::Int(-13).to_text(), "-13");
    assert_eq!(Val::Int(i64::MAX).to_text(), "9223372036854775807");
    assert_eq!(Val::Int(i64::MIN).to_text(), "-9223372036854775808");
    assert_eq!(fraction(false, 101, 1).to_text(), "10.1");
    assert_eq!(fraction(false, 1, 1).to_text(), "0.1");
    assert_eq!(fraction(true, 10, 1).to_text(), "-1");
    assert_eq!(fraction(false, 150, 2).to_text(), "1.5");
    assert_eq!(fraction(false, 5, 3).to_text(), "0.005");
    assert_eq!(fraction(false, 0, 0).to_text(), "0");
    assert_eq!(fraction(true, 0, 2).to_text(), "-0");
    assert_eq!(fraction(false, 12345, 0).to_text(), "12345");
    assert_eq!(fraction(false, 1200, 4).to_text(), "0.12");
    assert_eq!(
        fraction(false, u128::MAX, 38).to_text(),
        "3.40282366920938463463374607431768211455"
    );
    for op in [Op::Add, Op::Sub, Op::Mul, Op::Mod, Op::Div, Op::Pow] {
        assert_eq!(op.to_text().len(), 1);
    }
    assert_eq!(Op::Pow.to_text(), "^");
    assert_eq!(Op::Mod.to_text(), "%");
}

#[test]
fn a_copy_of_a_tree_is_equal_to_it() {
    let tree = parse("(1 + 2) * 10 * (3 - 10^2)").unwrap().exp().unwrap();
    assert_eq!(tree.clone(), tree);
    assert_eq!(tree.clone().to_text(), "(((1 + 2) * 10) * (3 - (10 ^ 2)))");
}
