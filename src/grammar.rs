//! The expression language, as spec functions over the input characters.
//!
//! Every grammar level reads from a position `i` and yields either an error or
//! a value together with the number of characters it read from `i`.
use vstd::prelude::*;

use crate::chars::{digit_value, is_digit, is_ident_char, is_ident_start, is_space};
use crate::value::{ParseError, ValueModel};

verus! {

/// What stands directly before an operand.
#[derive(Debug, Clone, Copy, PartialEq, Eq, Structural)]
pub enum Slot {
    /// The start of an expression or of a parenthesised group.
    Start,
    /// A binary operator: a sign or `*` written right after it, with no
    /// whitespace between, is a second operator in a row.
    AfterOperator,
    /// A unary sign, which another sign may not follow.
    AfterSign,
}

/// A grammar level's outcome: a value and how many characters were read.
pub type Step = Result<(i32, nat), ParseError>;

/// Characters left from position `i` (none past the end).
pub open spec fn left(s: Seq<char>, i: int) -> int {
    if i <= s.len() {
        s.len() - i
    } else {
        0
    }
}

/// Length of the longest run of characters satisfying `p` that starts at `i`.
pub open spec fn run_len(s: Seq<char>, i: int, p: spec_fn(char) -> bool) -> nat
    decreases s.len() - i,
{
    if 0 <= i < s.len() && p(s[i]) {
        1 + run_len(s, i + 1, p)
    } else {
        0
    }
}

pub open spec fn space_class() -> spec_fn(char) -> bool {
    |c: char| is_space(c)
}

pub open spec fn digit_class() -> spec_fn(char) -> bool {
    |c: char| is_digit(c)
}

pub open spec fn ident_class() -> spec_fn(char) -> bool {
    |c: char| is_ident_char(c)
}

pub open spec fn text_class() -> spec_fn(char) -> bool {
    |c: char| c != '"'
}

/// Number of whitespace characters from `i`.
pub open spec fn ws_len(s: Seq<char>, i: int) -> nat {
    run_len(s, i, space_class())
}

/// The number written by the decimal digits `d`.
pub open spec fn decimal(d: Seq<char>) -> int
    decreases d.len(),
{
    if d.len() == 0 {
        0
    } else {
        decimal(d.drop_last()) * 10 + digit_value(d.last())
    }
}

/// `x` as a 32-bit signed integer, or `NumberOverflow` where it does not fit.
pub open spec fn checked(x: int) -> Result<i32, ParseError> {
    if i32::MIN <= x <= i32::MAX {
        Ok(x as i32)
    } else {
        Err(ParseError::NumberOverflow)
    }
}

/// Adds `n` to the count of characters read of a successful step.
pub open spec fn shift(r: Step, n: nat) -> Step {
    match r {
        Ok((v, m)) => Ok((v, m + n)),
        Err(e) => Err(e),
    }
}

/// An integer literal starting at digit position `p`.
pub open spec fn number(s: Seq<char>, p: int) -> Step {
    let d = run_len(s, p, digit_class());
    if d > 1 && s[p] == '0' {
        Err(ParseError::LeadingZero)
    } else {
        match checked(decimal(s.subrange(p, p + d))) {
            Ok(v) => Ok((v, d)),
            Err(e) => Err(e),
        }
    }
}

/// A variable reference starting at position `p`.
pub open spec fn variable(s: Seq<char>, vars: Map<Seq<char>, ValueModel>, p: int) -> Step {
    let d = run_len(s, p, ident_class());
    let name = s.subrange(p, p + d);
    if vars.contains_key(name) {
        match vars[name] {
            ValueModel::Int(n) => Ok((n, d)),
            ValueModel::Text(_) => Err(ParseError::TypeMismatch),
        }
    } else {
        Err(ParseError::UndefinedVariable)
    }
}

/// A factor: a parenthesised expression, a signed factor, a literal or a variable.
pub open spec fn factor(s: Seq<char>, vars: Map<Seq<char>, ValueModel>, i: int, slot: Slot) -> Step
    decreases left(s, i), 0int,
{
    let p = i + ws_len(s, i);
    let read = (p - i) as nat;
    if 0 <= p < s.len() {
        let c = s[p];
        if c == '(' {
            match expression(s, vars, p + 1) {
                Ok((v, n)) => {
                    let q = p + 1 + n;
                    let r = q + ws_len(s, q);
                    if r < s.len() && s[r] == ')' {
                        Ok((v, (r + 1 - i) as nat))
                    } else {
                        Err(ParseError::UnmatchedParenthesis)
                    }
                },
                Err(e) => Err(e),
            }
        } else if c == '+' || c == '-' {
            if slot == Slot::AfterSign {
                Err(ParseError::RepeatedUnaryOperator)
            } else if slot == Slot::AfterOperator && p == i {
                Err(ParseError::ConsecutiveOperator)
            } else {
                match factor(s, vars, p + 1, Slot::AfterSign) {
                    Ok((v, n)) => {
                        let x = if c == '-' {
                            -v
                        } else {
                            v as int
                        };
                        match checked(x) {
                            Ok(y) => Ok((y, read + 1 + n)),
                            Err(e) => Err(e),
                        }
                    },
                    Err(e) => Err(e),
                }
            }
        } else if c == '*' && slot == Slot::AfterOperator && p == i {
            Err(ParseError::ConsecutiveOperator)
        } else if is_digit(c) {
            shift(number(s, p), read)
        } else if is_ident_start(c) {
            shift(variable(s, vars, p), read)
        } else {
            Err(ParseError::InvalidToken)
        }
    } else {
        Err(ParseError::InvalidToken)
    }
}

/// What follows the first factor of a term, given the product `acc` so far.
pub open spec fn term_rest(s: Seq<char>, vars: Map<Seq<char>, ValueModel>, i: int, acc: i32) -> Step
    decreases left(s, i), 1int,
{
    let p = i + ws_len(s, i);
    if 0 <= p < s.len() && s[p] == '*' {
        match factor(s, vars, p + 1, Slot::AfterOperator) {
            Ok((v, n)) => match checked(acc * v) {
                Ok(x) => shift(term_rest(s, vars, p + 1 + n, x), (p + 1 + n - i) as nat),
                Err(e) => Err(e),
            },
            Err(e) => Err(e),
        }
    } else {
        Ok((acc, (p - i) as nat))
    }
}

/// A term: factors joined by `*`, from the left.
pub open spec fn term(s: Seq<char>, vars: Map<Seq<char>, ValueModel>, i: int, slot: Slot) -> Step
    decreases left(s, i), 2int,
{
    match factor(s, vars, i, slot) {
        Ok((v, n)) => shift(term_rest(s, vars, i + n, v), n),
        Err(e) => Err(e),
    }
}

/// What follows the first term of an expression, given the total `acc` so far.
pub open spec fn expr_rest(s: Seq<char>, vars: Map<Seq<char>, ValueModel>, i: int, acc: i32) -> Step
    decreases left(s, i), 3int,
{
    let p = i + ws_len(s, i);
    if 0 <= p < s.len() && (s[p] == '+' || s[p] == '-') {
        match term(s, vars, p + 1, Slot::AfterOperator) {
            Ok((v, n)) => {
                let x = if s[p] == '+' {
                    acc + v
                } else {
                    acc - v
                };
                match checked(x) {
                    Ok(y) => shift(expr_rest(s, vars, p + 1 + n, y), (p + 1 + n - i) as nat),
                    Err(e) => Err(e),
                }
            },
            Err(e) => Err(e),
        }
    } else {
        Ok((acc, (p - i) as nat))
    }
}

/// An expression: terms joined by `+` and `-`, from the left.
pub open spec fn expression(s: Seq<char>, vars: Map<Seq<char>, ValueModel>, i: int) -> Step
    decreases left(s, i), 4int,
{
    match term(s, vars, i, Slot::Start) {
        Ok((v, n)) => shift(expr_rest(s, vars, i + n, v), n),
        Err(e) => Err(e),
    }
}

/// The outcome of evaluating the input from position `i` to its end: a string
/// literal or an arithmetic expression, with whitespace around it.
pub open spec fn evaluation_from(s: Seq<char>, vars: Map<Seq<char>, ValueModel>, i: int) -> Result<
    ValueModel,
    ParseError,
> {
    let p = i + ws_len(s, i);
    let read: Result<(ValueModel, int), ParseError> = if 0 <= p < s.len() && s[p] == '"' {
        let q = p + 1 + run_len(s, p + 1, text_class());
        if q < s.len() {
            Ok((ValueModel::Text(s.subrange(p + 1, q)), q + 1))
        } else {
            Err(ParseError::UnterminatedString)
        }
    } else {
        match expression(s, vars, p) {
            Ok((v, n)) => Ok((ValueModel::Int(v), p + n)),
            Err(e) => Err(e),
        }
    };
    match read {
        Ok((v, e)) => if e + ws_len(s, e) < s.len() {
            Err(ParseError::TrailingInput)
        } else {
            Ok(v)
        },
        Err(e) => Err(e),
    }
}

/// The outcome of evaluating the whole of `s` against the variables `vars`.
pub open spec fn evaluation(s: Seq<char>, vars: Map<Seq<char>, ValueModel>) -> Result<
    ValueModel,
    ParseError,
> {
    evaluation_from(s, vars, 0)
}

/// Every character of a run satisfies the run's predicate.
pub proof fn lemma_run_all(s: Seq<char>, i: int, p: spec_fn(char) -> bool)
    requires
        0 <= i,
    ensures
        i + run_len(s, i, p) <= s.len() || run_len(s, i, p) == 0,
        forall|j: int| i <= j < i + run_len(s, i, p) ==> p(#[trigger] s[j]),
    decreases s.len() - i,
{
    if 0 <= i < s.len() && p(s[i]) {
        lemma_run_all(s, i + 1, p);
    }
}

/// A prefix of a digit sequence writes a number no larger than the whole.
pub proof fn lemma_decimal_prefix(d: Seq<char>, k: int)
    requires
        0 <= k <= d.len(),
        forall|j: int| 0 <= j < d.len() ==> is_digit(#[trigger] d[j]),
    ensures
        0 <= decimal(d.subrange(0, k)) <= decimal(d),
    decreases d.len(),
{
    if k == d.len() {
        assert(d.subrange(0, k) =~= d);
        if d.len() > 0 {
            lemma_decimal_prefix(d.drop_last(), k - 1);
        }
    } else {
        let e = d.drop_last();
        assert(e.subrange(0, k) =~= d.subrange(0, k));
        lemma_decimal_prefix(e, k);
        lemma_decimal_prefix(e, e.len() as int);
        assert(e.subrange(0, e.len() as int) =~= e);
    }
}

/// Two shifts add up.
pub proof fn lemma_shift_shift(r: Step, a: nat, b: nat)
    ensures
        shift(shift(r, a), b) == shift(r, a + b),
{
}

} // verus!
