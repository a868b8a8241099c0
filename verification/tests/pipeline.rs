//! End-to-end tests of the evaluation pipeline.

use calc_rs::parser::eval;

#[test]
fn precedence_mul_binds_tighter() {
    assert_eq!(eval("2 + 3 * 4".to_string()), Ok(14));
}

#[test]
fn subtraction_is_left_associative() {
    assert_eq!(eval("10 - 3 - 2".to_string()), Ok(5));
}

#[test]
fn parentheses_override_precedence() {
    assert_eq!(eval("(2 + 3) * 4".to_string()), Ok(20));
}

#[test]
fn whitespace_and_noise_are_ignored() {
    assert_eq!(eval("2+3".to_string()), Ok(5));
    assert_eq!(eval("2 + 3".to_string()), Ok(5));
    assert_eq!(eval("2#+#3".to_string()), Ok(5));
}

#[test]
fn empty_input_is_a_recoverable_error() {
    assert_eq!(eval("".to_string()), Err("Can't parse; no tokens.".to_string()));
}

#[test]
fn blank_input_is_a_recoverable_error() {
    assert_eq!(eval("   ".to_string()), Err("Can't parse; no tokens.".to_string()));
}

#[test]
fn missing_closing_paren_is_an_error() {
    assert_eq!(
        eval("(1 + 2".to_string()),
        Err("Parsing error: ')' expected".to_string())
    );
}

#[test]
fn trailing_tokens_are_ignored() {
    assert_eq!(eval("1 + 2)".to_string()), Ok(3));
    assert_eq!(eval("1 + 2 3 4".to_string()), Ok(3));
}

#[test]
fn operator_at_factor_position_is_an_error() {
    assert_eq!(
        eval("* 2".to_string()),
        Err("Parsing error: Numeral or '(' expected".to_string())
    );
}

#[test]
fn empty_parens_are_an_error() {
    assert_eq!(
        eval("()".to_string()),
        Err("Parsing error: Parsing error: Numeral or '(' expected".to_string())
    );
}

#[test]
fn eof_at_factor_position_is_an_error() {
    assert_eq!(
        eval("1 +".to_string()),
        Err("Parsing error: unexpected EOF".to_string())
    );
}

#[test]
fn division_truncates() {
    assert_eq!(eval("7 / 2".to_string()), Ok(3));
}

#[test]
fn division_truncates_toward_zero() {
    assert_eq!(eval("(1 - 11) / 3".to_string()), Ok(-3));
}

#[test]
fn leading_minus_fails_to_parse() {
    assert_eq!(
        eval("-5".to_string()),
        Err("Parsing error: Numeral or '(' expected".to_string())
    );
}

#[test]
fn evaluation_is_idempotent() {
    let first = eval("6 * 7 - (1 + 2)".to_string());
    let second = eval("6 * 7 - (1 + 2)".to_string());
    assert_eq!(first, Ok(39));
    assert_eq!(first, second);
}

#[test]
fn numeral_overflow_is_a_recoverable_error() {
    assert_eq!(
        eval("99999999999999999999".to_string()),
        Err("Lexing error: numeral too large".to_string())
    );
}

#[test]
fn division_by_zero_is_a_recoverable_error() {
    assert_eq!(
        eval("1 / 0".to_string()),
        Err("Evaluation error: overflow or division by zero".to_string())
    );
}

#[test]
fn addition_overflow_is_a_recoverable_error() {
    assert_eq!(
        eval("9223372036854775807 + 1".to_string()),
        Err("Evaluation error: overflow or division by zero".to_string())
    );
}

#[test]
fn largest_numeral_evaluates() {
    assert_eq!(eval("9223372036854775807".to_string()), Ok(i64::MAX));
}

#[test]
fn nested_parentheses_evaluate() {
    assert_eq!(eval("((((1))))".to_string()), Ok(1));
    assert_eq!(eval("2 * (3 + 4) / 5".to_string()), Ok(2));
}

#[test]
fn errors_gain_a_prefix_per_open_paren() {
    assert_eq!(
        eval("((".to_string()),
        Err("Parsing error: Parsing error: Parsing error: unexpected EOF".to_string())
    );
}
