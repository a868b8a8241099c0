//! Parsing and evaluation.
//!
//! The parser is recursive descent over the token sequence with one token of
//! lookahead and no backtracking, following the grammar
//!
//! ```text
//! expr   := term ( ('+' | '-') term )*
//! term   := factor ( ('*' | '/') factor )*
//! factor := Number | '(' expr ')'
//! ```
//!
//! Both operator levels fold strictly to the left, so `a - b - c` parses as
//! `(a - b) - c`. After a complete top-level expression, trailing tokens are
//! ignored by design. The evaluator walks the tree with `i64` arithmetic and
//! truncating division.
//!
//! Arithmetic faults — a numeral too large for `i64`, overflow during
//! evaluation, division by zero — are not worth aborting a process over:
//! the top-level `eval` reports them as recoverable error messages, through
//! the same channel as parse errors.

use vstd::prelude::*;
use vstd::string::StringExecFns;

use crate::lexer::{lex_checked, lex_ok_from, spec_lex_from, Token};

verus! {

/// An arithmetic expression tree. Leaves hold literal values; each binary
/// node owns its two operand subtrees.
#[derive(Debug, PartialEq, Eq)]
pub enum Expr {
    Numeral(i64),
    Plus(Box<Expr>, Box<Expr>),
    Minus(Box<Expr>, Box<Expr>),
    Mul(Box<Expr>, Box<Expr>),
    Div(Box<Expr>, Box<Expr>),
}

/// Integer division truncating toward zero, as `i64` division does.
/// The value for a zero divisor is arbitrary; `eval_ok` rules that case out.
pub open spec fn trunc_div(a: int, b: int) -> int {
    if b == 0 {
        0
    } else if a >= 0 && b > 0 {
        a / b
    } else if a <= 0 && b < 0 {
        (a * -1) / (b * -1)
    } else if a < 0 {
        ((a * -1) / b) * -1
    } else {
        (a / (b * -1)) * -1
    }
}

/// The mathematical value of an expression tree, over unbounded integers,
/// with truncating division.
pub open spec fn spec_eval(e: Expr) -> int
    decreases e,
{
    match e {
        Expr::Numeral(n) => n as int,
        Expr::Plus(a, b) => spec_eval(*a) + spec_eval(*b),
        Expr::Minus(a, b) => spec_eval(*a) - spec_eval(*b),
        Expr::Mul(a, b) => spec_eval(*a) * spec_eval(*b),
        Expr::Div(a, b) => trunc_div(spec_eval(*a), spec_eval(*b)),
    }
}

/// Evaluation of `e` with `i64` arithmetic neither overflows nor divides
/// by zero: every subtree's value fits in `i64`, and no divisor is zero.
pub open spec fn eval_ok(e: Expr) -> bool
    decreases e,
{
    match e {
        Expr::Numeral(_) => true,
        Expr::Plus(a, b) => eval_ok(*a) && eval_ok(*b) && i64::MIN <= spec_eval(*a)
            + spec_eval(*b) <= i64::MAX,
        Expr::Minus(a, b) => eval_ok(*a) && eval_ok(*b) && i64::MIN <= spec_eval(*a)
            - spec_eval(*b) <= i64::MAX,
        Expr::Mul(a, b) => eval_ok(*a) && eval_ok(*b) && i64::MIN <= spec_eval(*a) * spec_eval(*b)
            <= i64::MAX,
        Expr::Div(a, b) => eval_ok(*a) && eval_ok(*b) && spec_eval(*b) != 0 && i64::MIN
            <= trunc_div(spec_eval(*a), spec_eval(*b)) <= i64::MAX,
    }
}

/// Error text for an empty token stream.
pub open spec fn msg_no_tokens() -> Seq<char> {
    "Can't parse; no tokens."@
}

/// Error text for end of input where a factor was expected.
pub open spec fn msg_eof() -> Seq<char> {
    "Parsing error: unexpected EOF"@
}

/// Error text for a token other than a numeral or `(` where a factor was
/// expected.
pub open spec fn msg_factor() -> Seq<char> {
    "Parsing error: Numeral or '(' expected"@
}

/// Error text for a missing closing parenthesis.
pub open spec fn msg_rparen() -> Seq<char> {
    "Parsing error: ')' expected"@
}

/// Error text for a numeral literal too large for `i64`.
pub open spec fn msg_overflow() -> Seq<char> {
    "Lexing error: numeral too large"@
}

/// Error text for overflow or division by zero during evaluation.
pub open spec fn msg_arith() -> Seq<char> {
    "Evaluation error: overflow or division by zero"@
}

/// An error that crosses a parenthesized subexpression gains one more
/// `Parsing error: ` prefix on the way out.
pub open spec fn wrap_msg(m: Seq<char>) -> Seq<char> {
    "Parsing error: "@ + m
}

/// Parse one factor — a numeral or a parenthesized expression — starting at
/// position `i`. Returns the tree and the position after it.
pub open spec fn spec_parse_factor(t: Seq<Token>, i: int) -> Result<(Expr, int), Seq<char>>
    decreases t.len() - i, 1int,
{
    if 0 <= i < t.len() {
        match t[i] {
            Token::Numeral(n) => Ok((Expr::Numeral(n), i + 1)),
            Token::Lparen => match spec_parse_expr(t, i + 1) {
                Ok((e, j)) => if j < t.len() && t[j] is Rparen {
                    Ok((e, j + 1))
                } else {
                    Err(msg_rparen())
                },
                Err(m) => Err(wrap_msg(m)),
            },
            _ => Err(msg_factor()),
        }
    } else {
        Err(msg_eof())
    }
}

/// The left fold of `term`: with `acc` parsed so far, consume
/// `('*' | '/') factor` pairs while the lookahead allows, wrapping `acc`
/// as the left operand each time.
pub open spec fn spec_parse_term_rest(t: Seq<Token>, i: int, acc: Expr) -> Result<
    (Expr, int),
    Seq<char>,
>
    decreases t.len() - i, 4int,
{
    if 0 <= i < t.len() && (t[i] is Mul || t[i] is Div) {
        match spec_parse_factor(t, i + 1) {
            Ok((e2, j)) => {
                let combined = if t[i] is Mul {
                    Expr::Mul(Box::new(acc), Box::new(e2))
                } else {
                    Expr::Div(Box::new(acc), Box::new(e2))
                };
                if i < j <= t.len() {
                    spec_parse_term_rest(t, j, combined)
                } else {
                    Ok((combined, j))
                }
            },
            Err(m) => Err(m),
        }
    } else {
        Ok((acc, i))
    }
}

/// Parse one term — factors joined by `*` and `/` — starting at `i`.
pub open spec fn spec_parse_term(t: Seq<Token>, i: int) -> Result<(Expr, int), Seq<char>>
    decreases t.len() - i, 2int,
{
    match spec_parse_factor(t, i) {
        Ok((e, j)) => if i < j <= t.len() {
            spec_parse_term_rest(t, j, e)
        } else {
            Ok((e, j))
        },
        Err(m) => Err(m),
    }
}

/// The left fold of `expr`: with `acc` parsed so far, consume
/// `('+' | '-') term` pairs while the lookahead allows.
pub open spec fn spec_parse_expr_rest(t: Seq<Token>, i: int, acc: Expr) -> Result<
    (Expr, int),
    Seq<char>,
>
    decreases t.len() - i, 5int,
{
    if 0 <= i < t.len() && (t[i] is Plus || t[i] is Minus) {
        match spec_parse_term(t, i + 1) {
            Ok((e2, j)) => {
                let combined = if t[i] is Plus {
                    Expr::Plus(Box::new(acc), Box::new(e2))
                } else {
                    Expr::Minus(Box::new(acc), Box::new(e2))
                };
                if i < j <= t.len() {
                    spec_parse_expr_rest(t, j, combined)
                } else {
                    Ok((combined, j))
                }
            },
            Err(m) => Err(m),
        }
    } else {
        Ok((acc, i))
    }
}

/// Parse one expression — terms joined by `+` and `-` — starting at `i`.
pub open spec fn spec_parse_expr(t: Seq<Token>, i: int) -> Result<(Expr, int), Seq<char>>
    decreases t.len() - i, 3int,
{
    match spec_parse_term(t, i) {
        Ok((e, j)) => if i < j <= t.len() {
            spec_parse_expr_rest(t, j, e)
        } else {
            Ok((e, j))
        },
        Err(m) => Err(m),
    }
}

/// What `parse` returns on a token sequence: an error on an empty sequence,
/// otherwise the result of parsing one expression from the front. Tokens
/// left over after the expression are ignored by design.
pub open spec fn spec_parse(t: Seq<Token>) -> Result<Expr, Seq<char>> {
    if t.len() == 0 {
        Err(msg_no_tokens())
    } else {
        match spec_parse_expr(t, 0) {
            Ok((e, _)) => Ok(e),
            Err(m) => Err(m),
        }
    }
}

/// Multiplication binds tighter than addition: for any numerals, the tokens
/// of `a + b * c` parse as `a + (b * c)`, never as `(a + b) * c`.
pub proof fn lemma_precedence(a: i64, b: i64, c: i64)
    ensures
        spec_parse(
            seq![
                Token::Numeral(a),
                Token::Plus,
                Token::Numeral(b),
                Token::Mul,
                Token::Numeral(c),
            ],
        ) == Ok::<Expr, Seq<char>>(
            Expr::Plus(
                Box::new(Expr::Numeral(a)),
                Box::new(Expr::Mul(Box::new(Expr::Numeral(b)), Box::new(Expr::Numeral(c)))),
            ),
        ),
{
    let t = seq![
        Token::Numeral(a),
        Token::Plus,
        Token::Numeral(b),
        Token::Mul,
        Token::Numeral(c),
    ];
    let na = Expr::Numeral(a);
    let nb = Expr::Numeral(b);
    let nc = Expr::Numeral(c);
    let bc = Expr::Mul(Box::new(nb), Box::new(nc));
    assert(spec_parse_factor(t, 0) == Ok::<(Expr, int), Seq<char>>((na, 1)));
    assert(spec_parse_term_rest(t, 1, na) == Ok::<(Expr, int), Seq<char>>((na, 1)));
    assert(spec_parse_term(t, 0) == Ok::<(Expr, int), Seq<char>>((na, 1)));
    assert(spec_parse_factor(t, 2) == Ok::<(Expr, int), Seq<char>>((nb, 3)));
    assert(spec_parse_factor(t, 4) == Ok::<(Expr, int), Seq<char>>((nc, 5)));
    assert(spec_parse_term_rest(t, 5, bc) == Ok::<(Expr, int), Seq<char>>((bc, 5)));
    assert(spec_parse_term_rest(t, 3, nb) == Ok::<(Expr, int), Seq<char>>((bc, 5)));
    assert(spec_parse_term(t, 2) == Ok::<(Expr, int), Seq<char>>((bc, 5)));
    let sum = Expr::Plus(Box::new(na), Box::new(bc));
    assert(spec_parse_expr_rest(t, 5, sum) == Ok::<(Expr, int), Seq<char>>((sum, 5)));
    assert(spec_parse_expr_rest(t, 1, na) == Ok::<(Expr, int), Seq<char>>((sum, 5)));
    assert(spec_parse_expr(t, 0) == Ok::<(Expr, int), Seq<char>>((sum, 5)));
}

/// Subtraction is left-associative: for any numerals, the tokens of
/// `a - b - c` parse as `(a - b) - c`, never as `a - (b - c)`.
pub proof fn lemma_left_associativity(a: i64, b: i64, c: i64)
    ensures
        spec_parse(
            seq![
                Token::Numeral(a),
                Token::Minus,
                Token::Numeral(b),
                Token::Minus,
                Token::Numeral(c),
            ],
        ) == Ok::<Expr, Seq<char>>(
            Expr::Minus(
                Box::new(Expr::Minus(Box::new(Expr::Numeral(a)), Box::new(Expr::Numeral(b)))),
                Box::new(Expr::Numeral(c)),
            ),
        ),
{
    let t = seq![
        Token::Numeral(a),
        Token::Minus,
        Token::Numeral(b),
        Token::Minus,
        Token::Numeral(c),
    ];
    let na = Expr::Numeral(a);
    let nb = Expr::Numeral(b);
    let nc = Expr::Numeral(c);
    assert(spec_parse_factor(t, 0) == Ok::<(Expr, int), Seq<char>>((na, 1)));
    assert(spec_parse_term_rest(t, 1, na) == Ok::<(Expr, int), Seq<char>>((na, 1)));
    assert(spec_parse_term(t, 0) == Ok::<(Expr, int), Seq<char>>((na, 1)));
    assert(spec_parse_factor(t, 2) == Ok::<(Expr, int), Seq<char>>((nb, 3)));
    assert(spec_parse_term_rest(t, 3, nb) == Ok::<(Expr, int), Seq<char>>((nb, 3)));
    assert(spec_parse_term(t, 2) == Ok::<(Expr, int), Seq<char>>((nb, 3)));
    assert(spec_parse_factor(t, 4) == Ok::<(Expr, int), Seq<char>>((nc, 5)));
    assert(spec_parse_term_rest(t, 5, nc) == Ok::<(Expr, int), Seq<char>>((nc, 5)));
    assert(spec_parse_term(t, 4) == Ok::<(Expr, int), Seq<char>>((nc, 5)));
    let ab = Expr::Minus(Box::new(na), Box::new(nb));
    let abc = Expr::Minus(Box::new(ab), Box::new(nc));
    assert(spec_parse_expr_rest(t, 5, abc) == Ok::<(Expr, int), Seq<char>>((abc, 5)));
    assert(spec_parse_expr_rest(t, 3, ab) == Ok::<(Expr, int), Seq<char>>((abc, 5)));
    assert(spec_parse_expr_rest(t, 1, na) == Ok::<(Expr, int), Seq<char>>((abc, 5)));
    assert(spec_parse_expr(t, 0) == Ok::<(Expr, int), Seq<char>>((abc, 5)));
}

/// Parentheses override precedence: for any numerals, the tokens of
/// `(a + b) * c` parse as a product whose left operand is the sum.
pub proof fn lemma_parentheses_override(a: i64, b: i64, c: i64)
    ensures
        spec_parse(
            seq![
                Token::Lparen,
                Token::Numeral(a),
                Token::Plus,
                Token::Numeral(b),
                Token::Rparen,
                Token::Mul,
                Token::Numeral(c),
            ],
        ) == Ok::<Expr, Seq<char>>(
            Expr::Mul(
                Box::new(Expr::Plus(Box::new(Expr::Numeral(a)), Box::new(Expr::Numeral(b)))),
                Box::new(Expr::Numeral(c)),
            ),
        ),
{
    let t = seq![
        Token::Lparen,
        Token::Numeral(a),
        Token::Plus,
        Token::Numeral(b),
        Token::Rparen,
        Token::Mul,
        Token::Numeral(c),
    ];
    let na = Expr::Numeral(a);
    let nb = Expr::Numeral(b);
    let nc = Expr::Numeral(c);
    let ab = Expr::Plus(Box::new(na), Box::new(nb));
    assert(spec_parse_factor(t, 1) == Ok::<(Expr, int), Seq<char>>((na, 2)));
    assert(spec_parse_term_rest(t, 2, na) == Ok::<(Expr, int), Seq<char>>((na, 2)));
    assert(spec_parse_term(t, 1) == Ok::<(Expr, int), Seq<char>>((na, 2)));
    assert(spec_parse_factor(t, 3) == Ok::<(Expr, int), Seq<char>>((nb, 4)));
    assert(spec_parse_term_rest(t, 4, nb) == Ok::<(Expr, int), Seq<char>>((nb, 4)));
    assert(spec_parse_term(t, 3) == Ok::<(Expr, int), Seq<char>>((nb, 4)));
    assert(spec_parse_expr_rest(t, 4, ab) == Ok::<(Expr, int), Seq<char>>((ab, 4)));
    assert(spec_parse_expr_rest(t, 2, na) == Ok::<(Expr, int), Seq<char>>((ab, 4)));
    assert(spec_parse_expr(t, 1) == Ok::<(Expr, int), Seq<char>>((ab, 4)));
    assert(spec_parse_factor(t, 0) == Ok::<(Expr, int), Seq<char>>((ab, 5)));
    assert(spec_parse_factor(t, 6) == Ok::<(Expr, int), Seq<char>>((nc, 7)));
    let prod = Expr::Mul(Box::new(ab), Box::new(nc));
    assert(spec_parse_term_rest(t, 7, prod) == Ok::<(Expr, int), Seq<char>>((prod, 7)));
    assert(spec_parse_term_rest(t, 5, ab) == Ok::<(Expr, int), Seq<char>>((prod, 7)));
    assert(spec_parse_term(t, 0) == Ok::<(Expr, int), Seq<char>>((prod, 7)));
    assert(spec_parse_expr_rest(t, 7, prod) == Ok::<(Expr, int), Seq<char>>((prod, 7)));
    assert(spec_parse_expr(t, 0) == Ok::<(Expr, int), Seq<char>>((prod, 7)));
}

/// Every successful parse consumes at least one token and never runs past
/// the end: the position returned is strictly beyond the start for the three
/// grammar productions, and at or beyond it for the two fold helpers.
pub proof fn lemma_parse_progress(t: Seq<Token>, i: int)
    requires
        0 <= i <= t.len(),
    ensures
        spec_parse_factor(t, i) is Ok ==> i < spec_parse_factor(t, i)->Ok_0.1 <= t.len(),
        spec_parse_term(t, i) is Ok ==> i < spec_parse_term(t, i)->Ok_0.1 <= t.len(),
        spec_parse_expr(t, i) is Ok ==> i < spec_parse_expr(t, i)->Ok_0.1 <= t.len(),
        forall|acc: Expr|
            (#[trigger] spec_parse_term_rest(t, i, acc)) is Ok ==> i <= spec_parse_term_rest(
                t,
                i,
                acc,
            )->Ok_0.1 <= t.len(),
        forall|acc: Expr|
            (#[trigger] spec_parse_expr_rest(t, i, acc)) is Ok ==> i <= spec_parse_expr_rest(
                t,
                i,
                acc,
            )->Ok_0.1 <= t.len(),
    decreases t.len() - i,
{
    if i < t.len() {
        if t[i] is Lparen {
            lemma_parse_progress(t, i + 1);
        }
    }
    assert(spec_parse_factor(t, i) is Ok ==> i < spec_parse_factor(t, i)->Ok_0.1 <= t.len());
    assert forall|acc: Expr|
        (#[trigger] spec_parse_term_rest(t, i, acc)) is Ok implies i <= spec_parse_term_rest(
        t,
        i,
        acc,
    )->Ok_0.1 <= t.len() by {
        if 0 <= i < t.len() && (t[i] is Mul || t[i] is Div) {
            lemma_parse_progress(t, i + 1);
            match spec_parse_factor(t, i + 1) {
                Ok(p) => {
                    assert(i + 1 < p.1 <= t.len());
                    lemma_parse_progress(t, p.1);
                    let combined = if t[i] is Mul {
                        Expr::Mul(Box::new(acc), Box::new(p.0))
                    } else {
                        Expr::Div(Box::new(acc), Box::new(p.0))
                    };
                    assert(spec_parse_term_rest(t, i, acc) == spec_parse_term_rest(
                        t,
                        p.1,
                        combined,
                    ));
                },
                Err(_) => (),
            }
        }
    }
    assert(spec_parse_term(t, i) is Ok ==> i < spec_parse_term(t, i)->Ok_0.1 <= t.len()) by {
        match spec_parse_factor(t, i) {
            Ok(p) => {
                assert(i < p.1 <= t.len());
                lemma_parse_progress(t, p.1);
                assert(spec_parse_term(t, i) == spec_parse_term_rest(t, p.1, p.0));
            },
            Err(_) => (),
        }
    }
    assert forall|acc: Expr|
        (#[trigger] spec_parse_expr_rest(t, i, acc)) is Ok implies i <= spec_parse_expr_rest(
        t,
        i,
        acc,
    )->Ok_0.1 <= t.len() by {
        if 0 <= i < t.len() && (t[i] is Plus || t[i] is Minus) {
            lemma_parse_progress(t, i + 1);
            match spec_parse_term(t, i + 1) {
                Ok(p) => {
                    assert(i + 1 < p.1 <= t.len());
                    lemma_parse_progress(t, p.1);
                    let combined = if t[i] is Plus {
                        Expr::Plus(Box::new(acc), Box::new(p.0))
                    } else {
                        Expr::Minus(Box::new(acc), Box::new(p.0))
                    };
                    assert(spec_parse_expr_rest(t, i, acc) == spec_parse_expr_rest(
                        t,
                        p.1,
                        combined,
                    ));
                },
                Err(_) => (),
            }
        }
    }
    assert(spec_parse_expr(t, i) is Ok ==> i < spec_parse_expr(t, i)->Ok_0.1 <= t.len()) by {
        match spec_parse_term(t, i) {
            Ok(p) => {
                assert(i < p.1 <= t.len());
                lemma_parse_progress(t, p.1);
                assert(spec_parse_expr(t, i) == spec_parse_expr_rest(t, p.1, p.0));
            },
            Err(_) => (),
        }
    }
}

/// The executable outcome of a parsing step agrees with the
/// specification-level one: same tree and position on success, same message
/// text on failure.
pub open spec fn step_agrees(
    r: Result<(Expr, usize), String>,
    s: Result<(Expr, int), Seq<char>>,
) -> bool {
    match r {
        Ok(p) => s is Ok && s->Ok_0.0 == p.0 && s->Ok_0.1 == p.1 as int,
        Err(m) => s is Err && m@ == s->Err_0,
    }
}

/// Error message for end of input where a factor was expected.
fn err_eof() -> (r: String)
    ensures
        r@ == msg_eof(),
{
    String::from_str("Parsing error: unexpected EOF")
}

/// Error message for a token other than a numeral or `(` at a factor
/// position.
fn err_factor() -> (r: String)
    ensures
        r@ == msg_factor(),
{
    String::from_str("Parsing error: Numeral or '(' expected")
}

/// Error message for a missing closing parenthesis.
fn err_rparen() -> (r: String)
    ensures
        r@ == msg_rparen(),
{
    String::from_str("Parsing error: ')' expected")
}

/// Prefix an error that crossed a parenthesized subexpression.
fn wrap_err(m: String) -> (r: String)
    ensures
        r@ == wrap_msg(m@),
{
    String::from_str("Parsing error: ").concat(m.as_str())
}

/// Parse one factor starting at position `i`.
fn parse_factor_at(t: &Vec<Token>, i: usize) -> (r: Result<(Expr, usize), String>)
    requires
        i <= t@.len(),
    ensures
        step_agrees(r, spec_parse_factor(t@, i as int)),
        r is Ok ==> i < r->Ok_0.1 <= t@.len(),
    decreases t@.len() - i, 1int,
{
    if i < t.len() {
        match t[i] {
            Token::Numeral(n) => Ok((Expr::Numeral(n), i + 1)),
            Token::Lparen => match parse_expr_at(t, i + 1) {
                Ok((e, j)) => {
                    if j < t.len() {
                        match t[j] {
                            Token::Rparen => Ok((e, j + 1)),
                            _ => Err(err_rparen()),
                        }
                    } else {
                        Err(err_rparen())
                    }
                },
                Err(m) => Err(wrap_err(m)),
            },
            _ => Err(err_factor()),
        }
    } else {
        Err(err_eof())
    }
}

/// Fold `('*' | '/') factor` pairs onto `acc` while the lookahead allows.
fn parse_term_rest_at(t: &Vec<Token>, i: usize, acc: Expr) -> (r: Result<(Expr, usize), String>)
    requires
        i <= t@.len(),
    ensures
        step_agrees(r, spec_parse_term_rest(t@, i as int, acc)),
        r is Ok ==> i <= r->Ok_0.1 <= t@.len(),
    decreases t@.len() - i, 4int,
{
    if i < t.len() && (t[i] == Token::Mul || t[i] == Token::Div) {
        let is_mul = t[i] == Token::Mul;
        match parse_factor_at(t, i + 1) {
            Ok((e2, j)) => {
                let combined = if is_mul {
                    Expr::Mul(Box::new(acc), Box::new(e2))
                } else {
                    Expr::Div(Box::new(acc), Box::new(e2))
                };
                parse_term_rest_at(t, j, combined)
            },
            Err(m) => Err(m),
        }
    } else {
        Ok((acc, i))
    }
}

/// Parse one term starting at position `i`.
fn parse_term_at(t: &Vec<Token>, i: usize) -> (r: Result<(Expr, usize), String>)
    requires
        i <= t@.len(),
    ensures
        step_agrees(r, spec_parse_term(t@, i as int)),
        r is Ok ==> i < r->Ok_0.1 <= t@.len(),
    decreases t@.len() - i, 2int,
{
    match parse_factor_at(t, i) {
        Ok((e, j)) => parse_term_rest_at(t, j, e),
        Err(m) => Err(m),
    }
}

/// Fold `('+' | '-') term` pairs onto `acc` while the lookahead allows.
fn parse_expr_rest_at(t: &Vec<Token>, i: usize, acc: Expr) -> (r: Result<(Expr, usize), String>)
    requires
        i <= t@.len(),
    ensures
        step_agrees(r, spec_parse_expr_rest(t@, i as int, acc)),
        r is Ok ==> i <= r->Ok_0.1 <= t@.len(),
    decreases t@.len() - i, 5int,
{
    if i < t.len() && (t[i] == Token::Plus || t[i] == Token::Minus) {
        let is_plus = t[i] == Token::Plus;
        match parse_term_at(t, i + 1) {
            Ok((e2, j)) => {
                let combined = if is_plus {
                    Expr::Plus(Box::new(acc), Box::new(e2))
                } else {
                    Expr::Minus(Box::new(acc), Box::new(e2))
                };
                parse_expr_rest_at(t, j, combined)
            },
            Err(m) => Err(m),
        }
    } else {
        Ok((acc, i))
    }
}

/// Parse one expression starting at position `i`.
fn parse_expr_at(t: &Vec<Token>, i: usize) -> (r: Result<(Expr, usize), String>)
    requires
        i <= t@.len(),
    ensures
        step_agrees(r, spec_parse_expr(t@, i as int)),
        r is Ok ==> i < r->Ok_0.1 <= t@.len(),
    decreases t@.len() - i, 3int,
{
    match parse_term_at(t, i) {
        Ok((e, j)) => parse_expr_rest_at(t, j, e),
        Err(m) => Err(m),
    }
}

/// Parse a token sequence into an expression tree.
///
/// An empty sequence is an error; otherwise one expression is parsed from
/// the front and any tokens after it are ignored by design. On failure the
/// message is exactly the one `spec_parse` describes.
pub fn parse(tokens: Vec<Token>) -> (r: Result<Expr, String>)
    ensures
        r is Ok <==> spec_parse(tokens@) is Ok,
        r is Ok ==> r->Ok_0 == spec_parse(tokens@)->Ok_0,
        r is Err ==> r->Err_0@ == spec_parse(tokens@)->Err_0,
{
    if tokens.len() == 0 {
        Err(String::from_str("Can't parse; no tokens."))
    } else {
        match parse_expr_at(&tokens, 0) {
            Ok((e, _)) => Ok(e),
            Err(m) => Err(m),
        }
    }
}

/// Evaluate an expression tree with `i64` arithmetic.
///
/// The caller must know that evaluation neither overflows nor divides by
/// zero (`eval_ok`); `eval_expr_checked` reports those cases instead.
pub fn eval_expr(expr: Expr) -> (r: i64)
    requires
        eval_ok(expr),
    ensures
        r as int == spec_eval(expr),
    decreases expr,
{
    match expr {
        Expr::Numeral(a) => a,
        Expr::Plus(a, b) => {
            let x = eval_expr(*a);
            let y = eval_expr(*b);
            x + y
        },
        Expr::Minus(a, b) => {
            let x = eval_expr(*a);
            let y = eval_expr(*b);
            x - y
        },
        Expr::Mul(a, b) => {
            let x = eval_expr(*a);
            let y = eval_expr(*b);
            x * y
        },
        Expr::Div(a, b) => {
            let x = eval_expr(*a);
            let y = eval_expr(*b);
            x.checked_div(y).unwrap()
        },
    }
}

/// Evaluate an expression tree with `i64` arithmetic, reporting overflow
/// and division by zero as `None` instead of failing.
pub fn eval_expr_checked(e: &Expr) -> (r: Option<i64>)
    ensures
        r is Some <==> eval_ok(*e),
        r matches Some(v) ==> v as int == spec_eval(*e),
    decreases *e,
{
    match e {
        Expr::Numeral(a) => Some(*a),
        Expr::Plus(a, b) => match (eval_expr_checked(&**a), eval_expr_checked(&**b)) {
            (Some(x), Some(y)) => x.checked_add(y),
            _ => None,
        },
        Expr::Minus(a, b) => match (eval_expr_checked(&**a), eval_expr_checked(&**b)) {
            (Some(x), Some(y)) => x.checked_sub(y),
            _ => None,
        },
        Expr::Mul(a, b) => match (eval_expr_checked(&**a), eval_expr_checked(&**b)) {
            (Some(x), Some(y)) => x.checked_mul(y),
            _ => None,
        },
        Expr::Div(a, b) => match (eval_expr_checked(&**a), eval_expr_checked(&**b)) {
            (Some(x), Some(y)) => x.checked_div(y),
            _ => None,
        },
    }
}

/// What `eval` returns on a line of text: the value of the expression the
/// text holds, or the message for the first failure in the pipeline.
pub open spec fn spec_eval_program(s: Seq<char>) -> Result<i64, Seq<char>> {
    if !lex_ok_from(s, 0) {
        Err(msg_overflow())
    } else {
        let t = spec_lex_from(s, 0);
        if t.len() == 0 {
            Err(msg_no_tokens())
        } else {
            match spec_parse_expr(t, 0) {
                Ok(p) => if eval_ok(p.0) {
                    Ok(spec_eval(p.0) as i64)
                } else {
                    Err(msg_arith())
                },
                Err(m) => Err(m),
            }
        }
    }
}

/// Unrecognized characters (whitespace included) are ignored by the whole
/// pipeline: inserting one anywhere that does not split a digit run leaves
/// the outcome of evaluation unchanged, value and message alike. This is why
/// `2+3`, `2 + 3` and `2#+#3` all evaluate to the same result.
pub proof fn lemma_eval_ignores_noise(s: Seq<char>, p: int, c: char)
    requires
        0 <= p <= s.len(),
        !crate::lexer::is_token_char(c),
        p == 0 || p == s.len() || !(crate::lexer::is_digit(s[p - 1]) && crate::lexer::is_digit(
            s[p],
        )),
    ensures
        spec_eval_program(s.insert(p, c)) == spec_eval_program(s),
{
    crate::lexer::lemma_noise_insertion(s, p, c);
}

/// Evaluating the same text twice gives the same outcome. `eval`'s contract
/// ties its result to `spec_eval_program`, a function of the text alone, so
/// any two results it can return for one text agree: same success or
/// failure, same value, same message. No state is carried between calls.
pub proof fn lemma_eval_deterministic(
    s: Seq<char>,
    r1: Result<i64, String>,
    r2: Result<i64, String>,
)
    requires
        r1 is Ok <==> spec_eval_program(s) is Ok,
        r1 is Ok ==> r1->Ok_0 == spec_eval_program(s)->Ok_0,
        r1 is Err ==> r1->Err_0@ == spec_eval_program(s)->Err_0,
        r2 is Ok <==> spec_eval_program(s) is Ok,
        r2 is Ok ==> r2->Ok_0 == spec_eval_program(s)->Ok_0,
        r2 is Err ==> r2->Err_0@ == spec_eval_program(s)->Err_0,
    ensures
        r1 is Ok <==> r2 is Ok,
        r1 is Ok ==> r1->Ok_0 == r2->Ok_0,
        r1 is Err ==> r1->Err_0@ == r2->Err_0@,
{
}

/// Evaluate a line of text: scan it into tokens, parse one expression, and
/// compute its value.
///
/// Every failure is a recoverable message: the parse errors of `spec_parse`,
/// a numeral too large for `i64`, and arithmetic that overflows or divides
/// by zero. Nothing here aborts the process.
pub fn eval(program: String) -> (r: Result<i64, String>)
    ensures
        r is Ok <==> spec_eval_program(program@) is Ok,
        r is Ok ==> r->Ok_0 == spec_eval_program(program@)->Ok_0,
        r is Err ==> r->Err_0@ == spec_eval_program(program@)->Err_0,
{
    match lex_checked(program.as_str()) {
        None => Err(String::from_str("Lexing error: numeral too large")),
        Some(tokens) => match parse(tokens) {
            Ok(e) => match eval_expr_checked(&e) {
                Some(v) => Ok(v),
                None => Err(String::from_str("Evaluation error: overflow or division by zero")),
            },
            Err(m) => Err(m),
        },
    }
}

} // verus!
