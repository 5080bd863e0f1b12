//! The recursive-descent evaluator over a character buffer.
use vstd::prelude::*;
use vstd::string::StrSliceExecFns;

use crate::chars::{digit, digit_value, ident_char, ident_start, is_digit, space};
use crate::grammar::{
    decimal, digit_class, evaluation, evaluation_from, expr_rest, expression, factor,
    ident_class, lemma_decimal_prefix, lemma_run_all, lemma_shift_shift, number, run_len,
    shift, term, term_rest, text_class, variable, ws_len, Slot, Step,
};
use crate::table::Variables;
use crate::value::{ParseError, Value, ValueModel};

verus! {

/// Relies on `String::push`: it appends `c` to the end of `s`.
#[verifier::external_body]
fn push_char(s: &mut String, c: char)
    ensures
        final(s)@ == old(s)@.push(c),
{
    s.push(c);
}

/// The mathematical content of an evaluation's outcome.
pub open spec fn outcome(r: Result<Value, ParseError>) -> Result<ValueModel, ParseError> {
    match r {
        Ok(v) => Ok(v@),
        Err(e) => Err(e),
    }
}

/// Evaluates one expression against a read-only variable table.
pub struct ExprParser<'a> {
    input: Vec<char>,
    pos: usize,
    variables: &'a Variables,
}

impl<'a> ExprParser<'a> {
    /// The characters being read.
    pub closed spec fn text(&self) -> Seq<char> {
        self.input@
    }

    /// The position of the next character to read.
    pub closed spec fn position(&self) -> int {
        self.pos as int
    }

    /// The variables that identifiers are looked up in.
    pub closed spec fn vars(&self) -> Map<Seq<char>, ValueModel> {
        self.variables@
    }

    /// The parser can run.
    pub closed spec fn ready(&self) -> bool {
        self.pos <= self.input@.len() && self.variables.wf()
    }

    /// `after` is this parser after a grammar level that owed `expected`
    /// returned `r`.
    closed spec fn stepped(&self, after: &Self, r: Result<i32, ParseError>, expected: Step) -> bool {
        &&& after.input@ == self.input@
        &&& after.variables == self.variables
        &&& after.pos <= after.input@.len()
        &&& match expected {
            Ok((v, n)) => r == Ok::<i32, ParseError>(v) && after.pos == self.pos + n,
            Err(e) => r == Err::<i32, ParseError>(e),
        }
    }

    /// A parser positioned at the start of `expression`.
    pub fn new(expression: &str, variables: &'a Variables) -> (r: Self)
        requires
            variables.wf(),
        ensures
            r.text() == expression@,
            r.position() == 0,
            r.vars() == variables@,
            r.ready(),
    {
        let n = expression.unicode_len();
        let mut input: Vec<char> = Vec::new();
        let mut i: usize = 0;
        while i < n
            invariant
                n == expression@.len(),
                i <= n,
                input@ == expression@.subrange(0, i as int),
            decreases n - i,
        {
            input.push(expression.get_char(i));
            i = i + 1;
            assert(input@ =~= expression@.subrange(0, i as int));
        }
        assert(input@ =~= expression@);
        ExprParser { input, pos: 0, variables }
    }

    /// Evaluates the text from the current position to its end.
    pub fn parse(&mut self) -> (r: Result<Value, ParseError>)
        requires
            old(self).ready(),
        ensures
            outcome(r) == evaluation_from(old(self).text(), old(self).vars(), old(self).position()),
            final(self).ready(),
            final(self).text() == old(self).text(),
            final(self).vars() == old(self).vars(),
    {
        self.skip_whitespace();
        let read = if self.peek() == Some('"') {
            self.parse_string_literal()
        } else {
            match self.parse_expression() {
                Ok(v) => Ok(Value::Int(v)),
                Err(e) => Err(e),
            }
        };
        match read {
            Ok(v) => {
                self.skip_whitespace();
                if self.pos < self.input.len() {
                    Err(ParseError::TrailingInput)
                } else {
                    Ok(v)
                }
            },
            Err(e) => Err(e),
        }
    }

    fn peek(&self) -> (r: Option<char>)
        ensures
            self.pos < self.input@.len() ==> r == Some(self.input@[self.pos as int]),
            self.pos >= self.input@.len() ==> r is None,
    {
        if self.pos < self.input.len() {
            Some(self.input[self.pos])
        } else {
            None
        }
    }

    fn next(&mut self) -> (r: Option<char>)
        ensures
            final(self).input@ == old(self).input@,
            final(self).variables == old(self).variables,
            old(self).pos < old(self).input@.len() ==> r == Some(old(self).input@[old(self).pos as int])
                && final(self).pos == old(self).pos + 1,
            old(self).pos >= old(self).input@.len() ==> r is None && final(self).pos == old(self).pos,
    {
        if self.pos < self.input.len() {
            let c = self.input[self.pos];
            self.pos = self.pos + 1;
            Some(c)
        } else {
            None
        }
    }

    fn skip_whitespace(&mut self)
        requires
            old(self).pos <= old(self).input@.len(),
        ensures
            final(self).input@ == old(self).input@,
            final(self).variables == old(self).variables,
            final(self).pos == old(self).pos + ws_len(old(self).input@, old(self).pos as int),
            final(self).pos <= final(self).input@.len(),
    {
        let ghost s = self.input@;
        let ghost start = self.pos as int;
        loop
            invariant
                self.input@ == s,
                s == old(self).input@,
                self.variables == old(self).variables,
                start == old(self).pos,
                start <= self.pos <= s.len(),
                ws_len(s, start) == (self.pos - start) + ws_len(s, self.pos as int),
            decreases s.len() - self.pos,
        {
            match self.peek() {
                Some(c) => {
                    if space(c) {
                        self.next();
                    } else {
                        return;
                    }
                },
                None => {
                    return;
                },
            }
        }
    }

    fn parse_expression(&mut self) -> (r: Result<i32, ParseError>)
        requires
            old(self).ready(),
        ensures
            old(self).stepped(final(self), r, expression(old(self).input@, old(self).variables@, old(self).pos as int)),
        decreases old(self).input@.len() - old(self).pos, 4int,
    {
        let ghost s = self.input@;
        let ghost vars = self.variables@;
        let ghost start = self.pos as int;
        let mut acc = match self.parse_term(Slot::Start) {
            Ok(v) => v,
            Err(e) => {
                return Err(e);
            },
        };
        loop
            invariant
                self.input@ == s,
                s == old(self).input@,
                self.variables == old(self).variables,
                self.variables@ == vars,
                self.variables.wf(),
                start == old(self).pos,
                start <= self.pos <= s.len(),
                expression(s, vars, start) == shift(expr_rest(s, vars, self.pos as int, acc), (self.pos - start) as nat),
            decreases s.len() - self.pos,
        {
            let ghost before = self.pos as int;
            self.skip_whitespace();
            let c = self.peek();
            if c == Some('+') || c == Some('-') {
                self.next();
                let v = match self.parse_term(Slot::AfterOperator) {
                    Ok(v) => v,
                    Err(e) => {
                        return Err(e);
                    },
                };
                let x = if c == Some('+') {
                    acc.checked_add(v)
                } else {
                    acc.checked_sub(v)
                };
                match x {
                    Some(y) => {
                        proof {
                            lemma_shift_shift(
                                expr_rest(s, vars, self.pos as int, y),
                                (self.pos - before) as nat,
                                (before - start) as nat,
                            );
                        }
                        acc = y;
                    },
                    None => {
                        return Err(ParseError::NumberOverflow);
                    },
                }
            } else {
                return Ok(acc);
            }
        }
    }

    fn parse_term(&mut self, slot: Slot) -> (r: Result<i32, ParseError>)
        requires
            old(self).ready(),
        ensures
            old(self).stepped(final(self), r, term(old(self).input@, old(self).variables@, old(self).pos as int, slot)),
        decreases old(self).input@.len() - old(self).pos, 2int,
    {
        let ghost s = self.input@;
        let ghost vars = self.variables@;
        let ghost start = self.pos as int;
        let mut acc = match self.parse_factor(slot) {
            Ok(v) => v,
            Err(e) => {
                return Err(e);
            },
        };
        loop
            invariant
                self.input@ == s,
                s == old(self).input@,
                self.variables == old(self).variables,
                self.variables@ == vars,
                self.variables.wf(),
                start == old(self).pos,
                start <= self.pos <= s.len(),
                term(s, vars, start, slot) == shift(term_rest(s, vars, self.pos as int, acc), (self.pos - start) as nat),
            decreases s.len() - self.pos,
        {
            let ghost before = self.pos as int;
            self.skip_whitespace();
            if self.peek() == Some('*') {
                self.next();
                let v = match self.parse_factor(Slot::AfterOperator) {
                    Ok(v) => v,
                    Err(e) => {
                        return Err(e);
                    },
                };
                match acc.checked_mul(v) {
                    Some(y) => {
                        proof {
                            lemma_shift_shift(
                                term_rest(s, vars, self.pos as int, y),
                                (self.pos - before) as nat,
                                (before - start) as nat,
                            );
                        }
                        acc = y;
                    },
                    None => {
                        return Err(ParseError::NumberOverflow);
                    },
                }
            } else {
                return Ok(acc);
            }
        }
    }

    fn parse_factor(&mut self, slot: Slot) -> (r: Result<i32, ParseError>)
        requires
            old(self).ready(),
        ensures
            old(self).stepped(final(self), r, factor(old(self).input@, old(self).variables@, old(self).pos as int, slot)),
        decreases old(self).input@.len() - old(self).pos, 0int,
    {
        let start = self.pos;
        self.skip_whitespace();
        let p = self.pos;
        let c = match self.peek() {
            Some(c) => c,
            None => {
                return Err(ParseError::InvalidToken);
            },
        };
        if c == '(' {
            self.next();
            let v = match self.parse_expression() {
                Ok(v) => v,
                Err(e) => {
                    return Err(e);
                },
            };
            self.skip_whitespace();
            if self.next() == Some(')') {
                Ok(v)
            } else {
                Err(ParseError::UnmatchedParenthesis)
            }
        } else if c == '+' || c == '-' {
            if slot == Slot::AfterSign {
                return Err(ParseError::RepeatedUnaryOperator);
            }
            if slot == Slot::AfterOperator && p == start {
                return Err(ParseError::ConsecutiveOperator);
            }
            self.next();
            let v = match self.parse_factor(Slot::AfterSign) {
                Ok(v) => v,
                Err(e) => {
                    return Err(e);
                },
            };
            if c == '+' {
                Ok(v)
            } else if v == i32::MIN {
                Err(ParseError::NumberOverflow)
            } else {
                Ok(-v)
            }
        } else if c == '*' && slot == Slot::AfterOperator && p == start {
            Err(ParseError::ConsecutiveOperator)
        } else if digit(c) {
            self.parse_integer_literal()
        } else if ident_start(c) {
            self.parse_identifier()
        } else {
            Err(ParseError::InvalidToken)
        }
    }

    fn parse_integer_literal(&mut self) -> (r: Result<i32, ParseError>)
        requires
            old(self).ready(),
            old(self).pos < old(self).input@.len(),
            is_digit(old(self).input@[old(self).pos as int]),
        ensures
            old(self).stepped(final(self), r, number(old(self).input@, old(self).pos as int)),
    {
        let ghost s = self.input@;
        let start = self.pos;
        let ghost d = run_len(s, start as int, digit_class());
        proof {
            lemma_run_all(s, start as int, digit_class());
        }
        let first = self.input[start];
        if first == '0' && self.input.len() - start > 1 && digit(self.input[start + 1]) {
            assert(run_len(s, start + 1, digit_class()) > 0);
            return Err(ParseError::LeadingZero);
        }
        let mut acc: i32 = 0;
        loop
            invariant
                start == old(self).pos,
                self.input@ == s,
                s == old(self).input@,
                self.variables == old(self).variables,
                start <= self.pos <= s.len(),
                run_len(s, start as int, digit_class()) == (self.pos - start) + run_len(s, self.pos as int, digit_class()),
                0 <= acc,
                acc == decimal(s.subrange(start as int, self.pos as int)),
                d == run_len(s, start as int, digit_class()),
                start + d <= s.len(),
                forall|j: int| start <= j < start + d ==> is_digit(#[trigger] s[j]),
                !(d > 1 && s[start as int] == '0'),
            ensures
                run_len(s, self.pos as int, digit_class()) == 0,
            decreases s.len() - self.pos,
        {
            let ghost before = self.pos as int;
            match self.peek() {
                Some(c) => {
                    if !digit(c) {
                        assert(run_len(s, self.pos as int, digit_class()) == 0);
                        break;
                    } else {
                        let ghost full = s.subrange(start as int, start + d);
                        let ghost part = s.subrange(start as int, before + 1);
                        assert(part.drop_last() =~= s.subrange(start as int, before));
                        assert(part.last() == c);
                        assert(decimal(part) == decimal(part.drop_last()) * 10 + digit_value(c));
                        let dv = ((c as u32) - ('0' as u32)) as i32;
                        assert(dv as int == digit_value(c));
                        let big: i64 = (acc as i64) * 10 + (dv as i64);
                        if big > i32::MAX as i64 {
                            proof {
                                assert(part =~= full.subrange(0, before + 1 - start));
                                lemma_decimal_prefix(full, before + 1 - start);
                            }
                            return Err(ParseError::NumberOverflow);
                        }
                        acc = big as i32;
                        self.next();
                    }
                },
                None => {
                    assert(run_len(s, self.pos as int, digit_class()) == 0);
                    break;
                },
            }
        }
        assert(s.subrange(start as int, self.pos as int) =~= s.subrange(start as int, start + d));
        Ok(acc)
    }

    fn parse_identifier(&mut self) -> (r: Result<i32, ParseError>)
        requires
            old(self).ready(),
        ensures
            old(self).stepped(final(self), r, variable(old(self).input@, old(self).variables@, old(self).pos as int)),
    {
        let ghost s = self.input@;
        let start = self.pos;
        let mut name = String::new();
        loop
            invariant
                start == old(self).pos,
                self.variables@ == old(self).variables@,
                self.input@ == s,
                s == old(self).input@,
                self.variables == old(self).variables,
                start <= self.pos <= s.len(),
                run_len(s, start as int, ident_class()) == (self.pos - start) + run_len(s, self.pos as int, ident_class()),
                name@ == s.subrange(start as int, self.pos as int),
            ensures
                run_len(s, self.pos as int, ident_class()) == 0,
            decreases s.len() - self.pos,
        {
            match self.peek() {
                Some(c) => {
                    if ident_char(c) {
                        push_char(&mut name, c);
                        self.next();
                        assert(name@ =~= s.subrange(start as int, self.pos as int));
                    } else {
                        assert(run_len(s, self.pos as int, ident_class()) == 0);
                        break;
                    }
                },
                None => {
                    assert(run_len(s, self.pos as int, ident_class()) == 0);
                    break;
                },
            }
        }
        match self.variables.get(&name) {
            Some(Value::Int(n)) => Ok(*n),
            Some(Value::Str(_)) => Err(ParseError::TypeMismatch),
            None => Err(ParseError::UndefinedVariable),
        }
    }

    fn parse_string_literal(&mut self) -> (r: Result<Value, ParseError>)
        requires
            old(self).ready(),
            old(self).pos < old(self).input@.len(),
            old(self).input@[old(self).pos as int] == '"',
        ensures
            final(self).input@ == old(self).input@,
            final(self).variables == old(self).variables,
            final(self).pos <= final(self).input@.len(),
            ({
                let s = old(self).input@;
                let q = old(self).pos + 1 + run_len(s, old(self).pos + 1, text_class());
                if q < s.len() {
                    r is Ok && r->Ok_0@ == ValueModel::Text(s.subrange(old(self).pos + 1, q))
                        && final(self).pos == q + 1
                } else {
                    r == Err::<Value, ParseError>(ParseError::UnterminatedString)
                }
            }),
    {
        let ghost s = self.input@;
        self.next();
        let start = self.pos;
        let mut text = String::new();
        loop
            invariant
                start == old(self).pos + 1,
                self.input@ == s,
                s == old(self).input@,
                self.variables == old(self).variables,
                start <= self.pos <= s.len(),
                run_len(s, start as int, text_class()) == (self.pos - start) + run_len(s, self.pos as int, text_class()),
                text@ == s.subrange(start as int, self.pos as int),
            decreases s.len() - self.pos,
        {
            match self.peek() {
                Some(c) => {
                    self.next();
                    if c == '"' {
                        return Ok(Value::Str(text));
                    }
                    push_char(&mut text, c);
                    assert(text@ =~= s.subrange(start as int, self.pos as int));
                },
                None => {
                    return Err(ParseError::UnterminatedString);
                },
            }
        }
    }
}

/// Evaluates `expression` against `variables`: the whole text must form one
/// string literal or one arithmetic expression, with optional whitespace around it.
pub fn evaluate(expression: &str, variables: &Variables) -> (r: Result<Value, ParseError>)
    requires
        variables.wf(),
    ensures
        outcome(r) == evaluation(expression@, variables@),
{
    let mut parser = ExprParser::new(expression, variables);
    parser.parse()
}

} // verus!
