//! Lexical analysis: turns a line of text into a sequence of tokens.
//!
//! Scanning never fails at the token-stream level: operator and parenthesis
//! characters become single tokens, a maximal run of ASCII digits becomes one
//! numeral token, and every other character (whitespace included) is dropped.
//! The one thing that can go wrong is a numeral too large for `i64`; the
//! checked entry point reports that as `None` instead of panicking.

use vstd::prelude::*;
use vstd::string::StrSliceExecFns;

verus! {

/// An atomic lexical unit: a numeral, an operator, or a parenthesis.
#[derive(Debug, Copy, Clone, PartialEq, Eq, Structural)]
pub enum Token {
    Numeral(i64),
    Plus,
    Minus,
    Mul,
    Div,
    Lparen,
    Rparen,
}

/// An ASCII decimal digit.
pub open spec fn is_digit(c: char) -> bool {
    48 <= c as int <= 57
}

/// The numeric value of an ASCII decimal digit.
pub open spec fn digit_val(c: char) -> int {
    c as int - 48
}

/// A character that the lexer turns into a token: a digit, an operator,
/// or a parenthesis. Every other character is dropped.
pub open spec fn is_token_char(c: char) -> bool {
    is_digit(c) || c == '+' || c == '-' || c == '*' || c == '/' || c == '(' || c == ')'
}

/// Length of the run of digits in `s` starting at position `i`.
pub open spec fn run_len(s: Seq<char>, i: int) -> nat
    decreases s.len() - i,
{
    if 0 <= i < s.len() && is_digit(s[i]) {
        1 + run_len(s, i + 1)
    } else {
        0
    }
}

/// Value of the digit string `s[i..j)` read as a decimal number.
pub open spec fn digits_val(s: Seq<char>, i: int, j: int) -> int
    decreases j - i,
{
    if i < j {
        digits_val(s, i, j - 1) * 10 + digit_val(s[j - 1])
    } else {
        0
    }
}

/// The token sequence the lexer produces from `s[i..]`, assuming every
/// numeral in that range fits in `i64` (see `lex_ok_from`).
pub open spec fn spec_lex_from(s: Seq<char>, i: int) -> Seq<Token>
    decreases s.len() - i,
    via spec_lex_from_decreases
{
    if 0 <= i < s.len() {
        let c = s[i];
        if is_digit(c) {
            let j = i + 1 + run_len(s, i + 1);
            seq![Token::Numeral(digits_val(s, i, j) as i64)] + spec_lex_from(s, j)
        } else if c == '+' {
            seq![Token::Plus] + spec_lex_from(s, i + 1)
        } else if c == '-' {
            seq![Token::Minus] + spec_lex_from(s, i + 1)
        } else if c == '*' {
            seq![Token::Mul] + spec_lex_from(s, i + 1)
        } else if c == '/' {
            seq![Token::Div] + spec_lex_from(s, i + 1)
        } else if c == '(' {
            seq![Token::Lparen] + spec_lex_from(s, i + 1)
        } else if c == ')' {
            seq![Token::Rparen] + spec_lex_from(s, i + 1)
        } else {
            spec_lex_from(s, i + 1)
        }
    } else {
        Seq::empty()
    }
}

/// The scan position stays within the text, so the recursion in
/// `spec_lex_from` terminates.
#[via_fn]
proof fn spec_lex_from_decreases(s: Seq<char>, i: int) {
    if 0 <= i < s.len() && is_digit(s[i]) {
        lemma_run_len_bound(s, i + 1);
    }
}

/// Every maximal digit run in `s[i..]` has a value representable as `i64`.
pub open spec fn lex_ok_from(s: Seq<char>, i: int) -> bool
    decreases s.len() - i,
    via lex_ok_from_decreases
{
    if 0 <= i < s.len() {
        if is_digit(s[i]) {
            let j = i + 1 + run_len(s, i + 1);
            digits_val(s, i, j) <= i64::MAX && lex_ok_from(s, j)
        } else {
            lex_ok_from(s, i + 1)
        }
    } else {
        true
    }
}

/// The scan position stays within the text, so the recursion in
/// `lex_ok_from` terminates.
#[via_fn]
proof fn lex_ok_from_decreases(s: Seq<char>, i: int) {
    if 0 <= i < s.len() && is_digit(s[i]) {
        lemma_run_len_bound(s, i + 1);
    }
}

/// A digit run never reaches past the end of the text.
pub proof fn lemma_run_len_bound(s: Seq<char>, i: int)
    requires
        0 <= i <= s.len(),
    ensures
        i + run_len(s, i) <= s.len(),
    decreases s.len() - i,
{
    if i < s.len() && is_digit(s[i]) {
        lemma_run_len_bound(s, i + 1);
    }
}

/// Every character inside a digit run is a digit.
pub proof fn lemma_run_digits(s: Seq<char>, i: int)
    requires
        0 <= i <= s.len(),
    ensures
        forall|m: int| i <= m < i + run_len(s, i) ==> is_digit(s[m]),
    decreases s.len() - i,
{
    if i < s.len() && is_digit(s[i]) {
        lemma_run_digits(s, i + 1);
    }
}

/// Reading further digits never shrinks the value: if `s[j..k)` holds only
/// digits and the value of `s[i..j)` is nonnegative, the value of `s[i..k)`
/// is at least that of `s[i..j)`.
pub proof fn lemma_digits_val_mono(s: Seq<char>, i: int, j: int, k: int)
    requires
        i <= j <= k,
        forall|m: int| j <= m < k ==> is_digit(s[m]),
        digits_val(s, i, j) >= 0,
    ensures
        digits_val(s, i, k) >= digits_val(s, i, j),
    decreases k - j,
{
    if j < k {
        lemma_digits_val_mono(s, i, j, k - 1);
    }
}

/// A character the lexer does not recognize yields no token: scanning from
/// it is the same as scanning from the next position, and numeral bounds
/// are unaffected.
pub proof fn lemma_noise_char_skipped(s: Seq<char>, i: int)
    requires
        0 <= i < s.len(),
        !is_token_char(s[i]),
    ensures
        spec_lex_from(s, i) == spec_lex_from(s, i + 1),
        lex_ok_from(s, i) == lex_ok_from(s, i + 1),
{
}

/// Where `s2` is `s` with one character slid in before position `p`, digit
/// runs at or after `p` are unchanged, only shifted by one.
proof fn lemma_run_len_shifted(s: Seq<char>, s2: Seq<char>, p: int, k: int)
    requires
        0 <= p <= k <= s.len(),
        s2.len() == s.len() + 1,
        forall|m: int| p <= m < s.len() ==> s2[m + 1] == s[m],
    ensures
        run_len(s2, k + 1) == run_len(s, k),
    decreases s.len() - k,
{
    if k < s.len() && is_digit(s[k]) {
        lemma_run_len_shifted(s, s2, p, k + 1);
    }
}

/// Where `s2` is `s` with one character slid in before position `p`, digit
/// strings at or after `p` keep their value, only shifted by one.
proof fn lemma_digits_val_shifted(s: Seq<char>, s2: Seq<char>, p: int, i: int, j: int)
    requires
        0 <= p <= i <= j <= s.len(),
        s2.len() == s.len() + 1,
        forall|m: int| p <= m < s.len() ==> s2[m + 1] == s[m],
    ensures
        digits_val(s2, i + 1, j + 1) == digits_val(s, i, j),
    decreases j - i,
{
    if i < j {
        lemma_digits_val_shifted(s, s2, p, i, j - 1);
    }
}

/// Where `s2` is `s` with one character slid in before position `p`,
/// scanning `s2` from beyond the insertion gives the tokens of `s` from the
/// corresponding position.
proof fn lemma_lex_shifted(s: Seq<char>, s2: Seq<char>, p: int, i: int)
    requires
        0 <= p <= i <= s.len(),
        s2.len() == s.len() + 1,
        forall|m: int| p <= m < s.len() ==> s2[m + 1] == s[m],
    ensures
        spec_lex_from(s2, i + 1) == spec_lex_from(s, i),
        lex_ok_from(s2, i + 1) == lex_ok_from(s, i),
    decreases s.len() - i,
{
    if i < s.len() {
        if is_digit(s[i]) {
            lemma_run_len_shifted(s, s2, p, i + 1);
            lemma_run_len_bound(s, i + 1);
            let j = i + 1 + run_len(s, i + 1);
            lemma_digits_val_shifted(s, s2, p, i, j);
            lemma_lex_shifted(s, s2, p, j);
        } else {
            lemma_lex_shifted(s, s2, p, i + 1);
        }
    }
}

/// Digit runs strictly before an agreeing prefix boundary `p` are the same
/// in both texts, provided the character at `p` in `s2` is no digit and a
/// run of `s` cannot cross `p`.
proof fn lemma_run_len_prefix(s: Seq<char>, s2: Seq<char>, p: int, k: int)
    requires
        0 <= k < p <= s.len() < s2.len(),
        forall|m: int| 0 <= m < p ==> s2[m] == s[m],
        !is_digit(s2[p]),
        p == s.len() || !is_digit(s[p]) || !is_digit(s[p - 1]),
    ensures
        run_len(s2, k) == run_len(s, k),
    decreases p - k,
{
    if is_digit(s[k]) {
        if k + 1 < p {
            lemma_run_len_prefix(s, s2, p, k + 1);
        } else {
            assert(run_len(s2, p) == 0);
            assert(run_len(s, p) == 0);
        }
    }
}

/// Digit strings ending at or before an agreeing prefix boundary have the
/// same value in both texts.
proof fn lemma_digits_val_prefix(s: Seq<char>, s2: Seq<char>, p: int, i: int, j: int)
    requires
        0 <= i <= j <= p <= s.len() < s2.len(),
        forall|m: int| 0 <= m < p ==> s2[m] == s[m],
    ensures
        digits_val(s2, i, j) == digits_val(s, i, j),
    decreases j - i,
{
    if i < j {
        lemma_digits_val_prefix(s, s2, p, i, j - 1);
    }
}

/// Where `s2` is `s` with one unrecognized character slid in before
/// position `p`, and the insertion does not land inside a digit run,
/// scanning either text from a position at or before `p` gives the same
/// tokens and the same numeral bounds.
proof fn lemma_lex_prefix(s: Seq<char>, s2: Seq<char>, p: int, i: int)
    requires
        0 <= i <= p <= s.len(),
        s2.len() == s.len() + 1,
        forall|m: int| 0 <= m < p ==> s2[m] == s[m],
        forall|m: int| p <= m < s.len() ==> s2[m + 1] == s[m],
        !is_token_char(s2[p]),
        p == s.len() || p == 0 || !(is_digit(s[p - 1]) && is_digit(s[p])),
    ensures
        spec_lex_from(s2, i) == spec_lex_from(s, i),
        lex_ok_from(s2, i) == lex_ok_from(s, i),
    decreases p - i,
{
    if i == p {
        lemma_noise_char_skipped(s2, p);
        lemma_lex_shifted(s, s2, p, p);
    } else {
        if is_digit(s[i]) {
            lemma_run_digits(s, i);
            lemma_run_len_bound(s, i + 1);
            let j = i + 1 + run_len(s, i + 1);
            assert(run_len(s, i) == 1 + run_len(s, i + 1));
            assert(forall|m: int| i <= m < j ==> is_digit(s[m]));
            assert(j <= p) by {
                if j > p {
                    assert(is_digit(s[p]));
                    assert(is_digit(s[p - 1]));
                }
            }
            if i + 1 < p {
                lemma_run_len_prefix(s, s2, p, i + 1);
            } else {
                assert(run_len(s2, p) == 0);
                assert(run_len(s, p) == 0);
            }
            lemma_digits_val_prefix(s, s2, p, i, j);
            lemma_lex_prefix(s, s2, p, j);
        } else {
            lemma_lex_prefix(s, s2, p, i + 1);
        }
    }
}

/// Unrecognized characters are ignored: inserting one anywhere that does
/// not fall inside a digit run — between two digits it would split one
/// numeral into two — changes neither the token stream nor the numeral
/// bounds. So `2+3`, `2 + 3` and `2#+#3` all scan to the same tokens.
pub proof fn lemma_noise_insertion(s: Seq<char>, p: int, c: char)
    requires
        0 <= p <= s.len(),
        !is_token_char(c),
        p == 0 || p == s.len() || !(is_digit(s[p - 1]) && is_digit(s[p])),
    ensures
        spec_lex_from(s.insert(p, c), 0) == spec_lex_from(s, 0),
        lex_ok_from(s.insert(p, c), 0) == lex_ok_from(s, 0),
{
    let s2 = s.insert(p, c);
    s.insert_ensures(p, c);
    lemma_lex_prefix(s, s2, p, 0);
}

/// A digit the lexer can turn into its value.
fn is_digit_char(c: char) -> (b: bool)
    ensures
        b == is_digit(c),
{
    let u = c as u32;
    48 <= u && u <= 57
}

/// The numeric value of an ASCII decimal digit character.
fn digit_value(c: char) -> (d: u32)
    requires
        is_digit(c),
    ensures
        d == digit_val(c),
{
    c as u32 - 48
}

/// The character at position `j` is an ASCII decimal digit.
fn digit_at(s: &str, j: usize) -> (b: bool)
    requires
        j < s@.len(),
    ensures
        b == is_digit(s@[j as int]),
{
    let c = s.get_char(j);
    is_digit_char(c)
}

/// Scan the text into tokens. Returns `None` exactly when some numeral is
/// too large for `i64`; otherwise the tokens are the ones `spec_lex_from`
/// describes.
pub fn lex_checked(s: &str) -> (r: Option<Vec<Token>>)
    ensures
        r is Some <==> lex_ok_from(s@, 0),
        r matches Some(tokens) ==> tokens@ == spec_lex_from(s@, 0),
{
    let n = s.unicode_len();
    let mut tokens: Vec<Token> = Vec::new();
    let mut i: usize = 0;
    while i < n
        invariant
            i <= n,
            n == s@.len(),
            lex_ok_from(s@, 0) <==> lex_ok_from(s@, i as int),
            lex_ok_from(s@, i as int) ==> spec_lex_from(s@, 0) == tokens@ + spec_lex_from(
                s@,
                i as int,
            ),
        decreases n - i,
    {
        let c = s.get_char(i);
        if is_digit_char(c) {
            proof {
                lemma_run_len_bound(s@, i as int);
                lemma_run_digits(s@, i as int);
            }
            let ghost end: int = i + run_len(s@, i as int);
            let mut j: usize = i + 1;
            let mut val: i64 = digit_value(c) as i64;
            proof {
                assert(digits_val(s@, i as int, i as int) == 0);
                assert(end == i + 1 + run_len(s@, i + 1));
            }
            while j < n && digit_at(s, j)
                invariant
                    i < j <= n,
                    n == s@.len(),
                    is_digit(s@[i as int]),
                    end == i + run_len(s@, i as int),
                    run_len(s@, i as int) == (j - i) + run_len(s@, j as int),
                    forall|m: int| i <= m < end ==> is_digit(s@[m]),
                    end <= n,
                    0 <= val,
                    val as int == digits_val(s@, i as int, j as int),
                    lex_ok_from(s@, 0) <==> lex_ok_from(s@, i as int),
                decreases n - j,
            {
                let c2 = s.get_char(j);
                let d = digit_value(c2) as i64;
                let next_val = match val.checked_mul(10) {
                    Some(v1) => v1.checked_add(d),
                    None => None,
                };
                match next_val {
                    Some(v) => {
                        val = v;
                        j = j + 1;
                    },
                    None => {
                        proof {
                            assert(digits_val(s@, i as int, j + 1) > i64::MAX);
                            lemma_digits_val_mono(s@, i as int, j + 1, end);
                            assert(digits_val(s@, i as int, end) > i64::MAX);
                            assert(!lex_ok_from(s@, i as int));
                        }
                        return None;
                    },
                }
            }
            proof {
                assert(run_len(s@, j as int) == 0);
                assert(j == end);
            }
            tokens.push(Token::Numeral(val));
            proof {
                assert(lex_ok_from(s@, i as int) <==> lex_ok_from(s@, j as int));
                assert(lex_ok_from(s@, i as int) ==> spec_lex_from(s@, i as int) == seq![
                    Token::Numeral(val),
                ] + spec_lex_from(s@, j as int));
                assert(lex_ok_from(s@, j as int) ==> spec_lex_from(s@, 0) == tokens@
                    + spec_lex_from(s@, j as int)) by {
                    if lex_ok_from(s@, j as int) {
                        assert(spec_lex_from(s@, 0) =~= tokens@ + spec_lex_from(s@, j as int));
                    }
                }
            }
            i = j;
        } else {
            let is_tok = c == '+' || c == '-' || c == '*' || c == '/' || c == '(' || c == ')';
            if is_tok {
                let tok = if c == '+' {
                    Token::Plus
                } else if c == '-' {
                    Token::Minus
                } else if c == '*' {
                    Token::Mul
                } else if c == '/' {
                    Token::Div
                } else if c == '(' {
                    Token::Lparen
                } else {
                    Token::Rparen
                };
                tokens.push(tok);
                proof {
                    if lex_ok_from(s@, i + 1) {
                        assert(spec_lex_from(s@, 0) =~= tokens@ + spec_lex_from(s@, i + 1));
                    }
                }
            }
            i = i + 1;
        }
    }
    proof {
        if lex_ok_from(s@, 0) {
            assert(spec_lex_from(s@, 0) =~= tokens@);
        }
    }
    Some(tokens)
}

/// Scan the text into tokens.
///
/// The caller must know that every numeral fits in `i64`; on text where one
/// does not, use `lex_checked`, which reports that case instead of failing.
pub fn lex(program: String) -> (tokens: Vec<Token>)
    requires
        lex_ok_from(program@, 0),
    ensures
        tokens@ == spec_lex_from(program@, 0),
{
    let r = lex_checked(program.as_str());
    r.unwrap()
}

} // verus!
