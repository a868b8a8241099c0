//! Tests of the individual pipeline stages: lexer, parser, evaluator.

use calc_rs::lexer::{lex, lex_checked, Token};
use calc_rs::parser::{eval_expr, eval_expr_checked, parse, Expr};

#[test]
fn lex_splits_numerals_and_operators() {
    let tokens = lex("12 + 345".to_string());
    assert_eq!(
        tokens,
        vec![Token::Numeral(12), Token::Plus, Token::Numeral(345)]
    );
}

#[test]
fn lex_recognizes_every_operator() {
    let tokens = lex("+-*/()".to_string());
    assert_eq!(
        tokens,
        vec![
            Token::Plus,
            Token::Minus,
            Token::Mul,
            Token::Div,
            Token::Lparen,
            Token::Rparen
        ]
    );
}

#[test]
fn lex_drops_unrecognized_characters() {
    let tokens = lex("a1b2c!".to_string());
    assert_eq!(tokens, vec![Token::Numeral(1), Token::Numeral(2)]);
}

#[test]
fn lex_of_empty_text_is_empty() {
    assert_eq!(lex(String::new()), Vec::<Token>::new());
}

#[test]
fn lex_takes_maximal_digit_runs() {
    let tokens = lex("007".to_string());
    assert_eq!(tokens, vec![Token::Numeral(7)]);
}

#[test]
fn lex_checked_reports_numeral_overflow() {
    assert_eq!(lex_checked("18446744073709551616"), None);
    assert_eq!(
        lex_checked("42"),
        Some(vec![Token::Numeral(42)])
    );
}

#[test]
fn parse_builds_left_associative_trees() {
    let tokens = vec![
        Token::Numeral(10),
        Token::Minus,
        Token::Numeral(3),
        Token::Minus,
        Token::Numeral(2),
    ];
    let expr = parse(tokens).unwrap();
    // (10 - 3) - 2, never 10 - (3 - 2)
    assert_eq!(eval_expr(expr), 5);
}

#[test]
fn parse_rejects_empty_token_sequence() {
    assert_eq!(parse(vec![]), Err("Can't parse; no tokens.".to_string()));
}

#[test]
fn parse_rejects_lone_operator() {
    assert_eq!(
        parse(vec![Token::Plus]),
        Err("Parsing error: Numeral or '(' expected".to_string())
    );
}

#[test]
fn parse_rejects_unclosed_paren() {
    assert_eq!(
        parse(vec![Token::Lparen, Token::Numeral(1)]),
        Err("Parsing error: ')' expected".to_string())
    );
}

#[test]
fn eval_expr_computes_each_operator() {
    assert_eq!(
        eval_expr(Expr::Plus(
            Box::new(Expr::Numeral(2)),
            Box::new(Expr::Numeral(3))
        )),
        5
    );
    assert_eq!(
        eval_expr(Expr::Minus(
            Box::new(Expr::Numeral(2)),
            Box::new(Expr::Numeral(3))
        )),
        -1
    );
    assert_eq!(
        eval_expr(Expr::Mul(
            Box::new(Expr::Numeral(4)),
            Box::new(Expr::Numeral(5))
        )),
        20
    );
    assert_eq!(
        eval_expr(Expr::Div(
            Box::new(Expr::Numeral(7)),
            Box::new(Expr::Numeral(2))
        )),
        3
    );
}

#[test]
fn eval_expr_division_truncates_toward_zero() {
    assert_eq!(
        eval_expr(Expr::Div(
            Box::new(Expr::Numeral(-7)),
            Box::new(Expr::Numeral(2))
        )),
        -3
    );
    assert_eq!(
        eval_expr(Expr::Div(
            Box::new(Expr::Numeral(7)),
            Box::new(Expr::Numeral(-2))
        )),
        -3
    );
}

#[test]
fn eval_expr_checked_reports_division_by_zero() {
    let tree = Expr::Div(Box::new(Expr::Numeral(1)), Box::new(Expr::Numeral(0)));
    assert_eq!(eval_expr_checked(&tree), None);
}

#[test]
fn eval_expr_checked_reports_overflow() {
    let tree = Expr::Mul(
        Box::new(Expr::Numeral(i64::MAX)),
        Box::new(Expr::Numeral(2)),
    );
    assert_eq!(eval_expr_checked(&tree), None);
    let fine = Expr::Mul(Box::new(Expr::Numeral(6)), Box::new(Expr::Numeral(7)));
    assert_eq!(eval_expr_checked(&fine), Some(42));
}
