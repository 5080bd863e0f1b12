//! Properties of evaluation as a whole.
use vstd::prelude::*;

use crate::chars::{digit_value, is_digit, is_identifier};
use crate::grammar::{
    decimal, digit_class, evaluation, evaluation_from, expr_rest, expression, factor,
    ident_class, number, run_len, shift, term, term_rest, variable, ws_len, Slot,
};
use crate::value::{ParseError, ValueModel};

verus! {

/// A run that reaches the end of the input covers everything from `i`.
proof fn lemma_run_to_end(s: Seq<char>, i: int, p: spec_fn(char) -> bool)
    requires
        0 <= i <= s.len(),
        forall|j: int| i <= j < s.len() ==> p(#[trigger] s[j]),
    ensures
        run_len(s, i, p) == s.len() - i,
    decreases s.len() - i,
{
    if i < s.len() {
        lemma_run_to_end(s, i + 1, p);
    }
}

/// Evaluation is a function of the text and of the variables' contents alone:
/// evaluating the same text against equal tables gives the same outcome.
pub proof fn law_evaluation_repeatable(
    s: Seq<char>,
    vars1: Map<Seq<char>, ValueModel>,
    vars2: Map<Seq<char>, ValueModel>,
)
    requires
        vars1 == vars2,
    ensures
        evaluation(s, vars1) == evaluation(s, vars2),
{
}

/// After `name` is assigned the integer `n`, the text `name` evaluates to `n`.
pub proof fn law_assigned_integer_reads_back(
    name: Seq<char>,
    n: i32,
    vars: Map<Seq<char>, ValueModel>,
)
    requires
        is_identifier(name),
    ensures
        evaluation(name, vars.insert(name, ValueModel::Int(n))) == Ok::<ValueModel, ParseError>(ValueModel::Int(n)),
{
    let t = vars.insert(name, ValueModel::Int(n));
    let len = name.len() as int;
    assert(ws_len(name, 0) == 0);
    assert(ws_len(name, len) == 0);
    lemma_run_to_end(name, 0, ident_class());
    assert(name.subrange(0, len) =~= name);
    assert(variable(name, t, 0) == Ok::<(i32, nat), ParseError>((n, len as nat)));
    assert(factor(name, t, 0, Slot::Start) == Ok::<(i32, nat), ParseError>((n, len as nat)));
    assert(term_rest(name, t, len, n) == Ok::<(i32, nat), ParseError>((n, 0)));
    assert(term(name, t, 0, Slot::Start) == Ok::<(i32, nat), ParseError>((n, len as nat)));
    assert(expr_rest(name, t, len, n) == Ok::<(i32, nat), ParseError>((n, 0)));
    assert(expression(name, t, 0) == Ok::<(i32, nat), ParseError>((n, len as nat)));
    assert(evaluation_from(name, t, 0) == Ok::<ValueModel, ParseError>(ValueModel::Int(n)));
}

/// An arithmetic expression in the shape the grammar reads it: terms joined by
/// `+` and `-`, each applied from the left.
pub enum Sum {
    One(Product),
    Plus(Box<Sum>, Product),
    Minus(Box<Sum>, Product),
}

/// Atoms joined by `*`, applied from the left.
pub enum Product {
    One(Atom),
    Times(Box<Product>, Atom),
}

/// A number or a parenthesised sum.
pub enum Atom {
    Num(nat),
    Group(Box<Sum>),
}

/// The decimal digit character for `d` (below ten).
pub open spec fn digit_char(d: nat) -> char {
    if d == 0 {
        '0'
    } else if d == 1 {
        '1'
    } else if d == 2 {
        '2'
    } else if d == 3 {
        '3'
    } else if d == 4 {
        '4'
    } else if d == 5 {
        '5'
    } else if d == 6 {
        '6'
    } else if d == 7 {
        '7'
    } else if d == 8 {
        '8'
    } else {
        '9'
    }
}

/// The decimal numeral of `n`, without leading zeros.
pub open spec fn numeral(n: nat) -> Seq<char>
    decreases n,
{
    if n < 10 {
        seq![digit_char(n)]
    } else {
        numeral(n / 10).push(digit_char(n % 10))
    }
}

pub open spec fn render_sum(e: Sum) -> Seq<char>
    decreases e,
{
    match e {
        Sum::One(p) => render_product(p),
        Sum::Plus(a, p) => render_sum(*a) + seq!['+'] + render_product(p),
        Sum::Minus(a, p) => render_sum(*a) + seq!['-'] + render_product(p),
    }
}

pub open spec fn render_product(p: Product) -> Seq<char>
    decreases p,
{
    match p {
        Product::One(x) => render_atom(x),
        Product::Times(a, x) => render_product(*a) + seq!['*'] + render_atom(x),
    }
}

pub open spec fn render_atom(x: Atom) -> Seq<char>
    decreases x,
{
    match x {
        Atom::Num(n) => numeral(n),
        Atom::Group(e) => seq!['('] + render_sum(*e) + seq![')'],
    }
}

/// The value of a sum in integer arithmetic.
pub open spec fn value_sum(e: Sum) -> int
    decreases e,
{
    match e {
        Sum::One(p) => value_product(p),
        Sum::Plus(a, p) => value_sum(*a) + value_product(p),
        Sum::Minus(a, p) => value_sum(*a) - value_product(p),
    }
}

pub open spec fn value_product(p: Product) -> int
    decreases p,
{
    match p {
        Product::One(x) => value_atom(x),
        Product::Times(a, x) => value_product(*a) * value_atom(x),
    }
}

pub open spec fn value_atom(x: Atom) -> int
    decreases x,
{
    match x {
        Atom::Num(n) => n as int,
        Atom::Group(e) => value_sum(*e),
    }
}

/// `x` fits in 32 signed bits.
pub open spec fn in_range(x: int) -> bool {
    i32::MIN <= x <= i32::MAX
}

/// Every number and every partial result of `e` fits in 32 signed bits.
pub open spec fn fits_sum(e: Sum) -> bool
    decreases e,
{
    in_range(value_sum(e)) && match e {
        Sum::One(p) => fits_product(p),
        Sum::Plus(a, p) => fits_sum(*a) && fits_product(p),
        Sum::Minus(a, p) => fits_sum(*a) && fits_product(p),
    }
}

pub open spec fn fits_product(p: Product) -> bool
    decreases p,
{
    in_range(value_product(p)) && match p {
        Product::One(x) => fits_atom(x),
        Product::Times(a, x) => fits_product(*a) && fits_atom(x),
    }
}

pub open spec fn fits_atom(x: Atom) -> bool
    decreases x,
{
    in_range(value_atom(x)) && match x {
        Atom::Num(n) => true,
        Atom::Group(e) => fits_sum(*e),
    }
}

/// What may follow an atom: `*`, `+`, `-`, `)` or the end.
spec fn after_atom(s: Seq<char>, j: int) -> bool {
    j == s.len() || s[j] == '*' || s[j] == '+' || s[j] == '-' || s[j] == ')'
}

/// What may follow a product: `+`, `-`, `)` or the end.
spec fn after_product(s: Seq<char>, j: int) -> bool {
    j == s.len() || s[j] == '+' || s[j] == '-' || s[j] == ')'
}

/// `r` stands in `s` from position `i`.
spec fn placed(s: Seq<char>, i: int, r: Seq<char>) -> bool {
    0 <= i && i + r.len() <= s.len() && s.subrange(i, i + r.len()) == r
}

proof fn lemma_placed_parts(s: Seq<char>, i: int, a: Seq<char>, c: char, b: Seq<char>)
    requires
        placed(s, i, a + seq![c] + b),
    ensures
        placed(s, i, a),
        s[i + a.len()] == c,
        placed(s, i + a.len() + 1, b),
{
    let r = a + seq![c] + b;
    assert forall|k: int| 0 <= k < r.len() implies s[i + k] == r[k] by {
        assert(s.subrange(i, i + r.len())[k] == s[i + k]);
    }
    assert(s.subrange(i, i + a.len()) =~= a);
    assert(r[a.len() as int] == c);
    assert(s.subrange(i + a.len() + 1, i + a.len() + 1 + b.len()) =~= b) by {
        assert forall|k: int| 0 <= k < b.len() implies s[i + a.len() + 1 + k] == b[k] by {
            assert(r[a.len() + 1 + k] == b[k]);
        }
    }
}

proof fn lemma_run_exact(s: Seq<char>, i: int, p: spec_fn(char) -> bool, k: int)
    requires
        0 <= i,
        0 <= k,
        i + k <= s.len(),
        forall|j: int| i <= j < i + k ==> p(#[trigger] s[j]),
        i + k == s.len() || !p(s[i + k]),
    ensures
        run_len(s, i, p) == k,
    decreases k,
{
    if k > 0 {
        lemma_run_exact(s, i + 1, p, k - 1);
    }
}

proof fn lemma_numeral(n: nat)
    ensures
        numeral(n).len() >= 1,
        forall|j: int| 0 <= j < numeral(n).len() ==> is_digit(#[trigger] numeral(n)[j]),
        decimal(numeral(n)) == n,
        numeral(n).len() > 1 ==> numeral(n)[0] != '0',
    decreases n,
{
    if n >= 10 {
        let m = n / 10;
        lemma_numeral(m);
        let r = numeral(n);
        assert(r == numeral(m).push(digit_char(n % 10)));
        assert(r.drop_last() =~= numeral(m));
        assert(r.last() == digit_char(n % 10));
        assert(digit_value(digit_char(n % 10)) == n % 10);
        assert(decimal(r) == decimal(numeral(m)) * 10 + digit_value(r.last()));
        assert(m * 10 + n % 10 == n);
        assert(r[0] == numeral(m)[0]);
        if m < 10 {
            assert(numeral(m) == seq![digit_char(m)]);
        } else {
            lemma_numeral(m / 10);
            assert(numeral(m) == numeral(m / 10).push(digit_char(m % 10)));
        }
    } else {
        assert(numeral(n) == seq![digit_char(n)]);
        assert(seq![digit_char(n)].drop_last() =~= Seq::<char>::empty());
        assert(decimal(numeral(n)) == decimal(numeral(n).drop_last()) * 10 + digit_value(numeral(n).last()));
    }
}

proof fn lemma_sum_starts(e: Sum)
    ensures
        render_sum(e).len() > 0,
        is_digit(render_sum(e)[0]) || render_sum(e)[0] == '(',
    decreases e,
{
    match e {
        Sum::One(p) => lemma_product_starts(p),
        Sum::Plus(a, p) => {
            lemma_sum_starts(*a);
            let ra = render_sum(*a);
            assert((ra + seq!['+'] + render_product(p))[0] == ra[0]);
        },
        Sum::Minus(a, p) => {
            lemma_sum_starts(*a);
            let ra = render_sum(*a);
            assert((ra + seq!['-'] + render_product(p))[0] == ra[0]);
        },
    }
}

proof fn lemma_product_starts(p: Product)
    ensures
        render_product(p).len() > 0,
        is_digit(render_product(p)[0]) || render_product(p)[0] == '(',
    decreases p,
{
    match p {
        Product::One(x) => {
            assert(render_product(p) == render_atom(x));
            match x {
                Atom::Num(n) => {
                    lemma_numeral(n);
                    assert(render_atom(x) == numeral(n));
                },
                Atom::Group(e) => {
                    assert(render_atom(x) == seq!['('] + render_sum(*e) + seq![')']);
                    assert((seq!['('] + render_sum(*e) + seq![')'])[0] == '(');
                },
            }
        },
        Product::Times(a, x) => {
            lemma_product_starts(*a);
            let ra = render_product(*a);
            assert((ra + seq!['*'] + render_atom(x))[0] == ra[0]);
        },
    }
}

proof fn lemma_atom(s: Seq<char>, vars: Map<Seq<char>, ValueModel>, i: int, x: Atom, slot: Slot)
    requires
        placed(s, i, render_atom(x)),
        after_atom(s, i + render_atom(x).len()),
        fits_atom(x),
    ensures
        factor(s, vars, i, slot) == Ok::<(i32, nat), ParseError>(
            (value_atom(x) as i32, render_atom(x).len()),
        ),
    decreases x, 0int,
{
    let r = render_atom(x);
    assert(s[i] == r[0]) by {
        assert(s.subrange(i, i + r.len())[0] == s[i]);
    }
    match x {
        Atom::Num(n) => {
            lemma_numeral(n);
            assert(ws_len(s, i) == 0);
            assert forall|j: int| i <= j < i + r.len() implies digit_class()(#[trigger] s[j]) by {
                assert(s.subrange(i, i + r.len())[j - i] == s[j]);
            }
            lemma_run_exact(s, i, digit_class(), r.len() as int);
            assert(s.subrange(i, i + r.len()) == r);
            assert(number(s, i) == Ok::<(i32, nat), ParseError>((n as i32, r.len())));
        },
        Atom::Group(e) => {
            let re = render_sum(*e);
            assert(r == seq!['('] + re + seq![')']);
            lemma_sum_starts(*e);
            assert(ws_len(s, i) == 0);
            assert(s.subrange(i + 1, i + 1 + re.len()) =~= re) by {
                assert forall|k: int| 0 <= k < re.len() implies s[i + 1 + k] == re[k] by {
                    assert(s.subrange(i, i + r.len())[1 + k] == s[i + 1 + k]);
                    assert(r[1 + k] == re[k]);
                }
            }
            let q = i + 1 + re.len();
            assert(s[q] == ')') by {
                assert(s.subrange(i, i + r.len())[(1 + re.len()) as int] == s[q]);
            }
            lemma_sum_run(s, vars, i + 1, *e);
            assert(ws_len(s, q) == 0);
            assert(expr_rest(s, vars, q, value_sum(*e) as i32) == Ok::<(i32, nat), ParseError>(
                (value_sum(*e) as i32, 0),
            ));
        },
    }
}

proof fn lemma_product_run(
    s: Seq<char>,
    vars: Map<Seq<char>, ValueModel>,
    i: int,
    p: Product,
    slot: Slot,
)
    requires
        placed(s, i, render_product(p)),
        after_atom(s, i + render_product(p).len()),
        fits_product(p),
    ensures
        term(s, vars, i, slot) == shift(
            term_rest(s, vars, i + render_product(p).len(), value_product(p) as i32),
            render_product(p).len(),
        ),
    decreases p, 0int,
{
    match p {
        Product::One(x) => {
            lemma_atom(s, vars, i, x, slot);
        },
        Product::Times(a, x) => {
            let ra = render_product(*a);
            let rx = render_atom(x);
            lemma_placed_parts(s, i, ra, '*', rx);
            let k = i + ra.len();
            lemma_product_run(s, vars, i, *a, slot);
            lemma_atom(s, vars, k + 1, x, Slot::AfterOperator);
            assert(ws_len(s, k) == 0);
            let va = value_product(*a) as i32;
            let vp = value_product(p) as i32;
            assert(fits_product(*a) && fits_atom(x));
            assert(in_range(value_product(*a)) && in_range(value_atom(x)));
            assert(value_product(p) == value_product(*a) * value_atom(x));
            assert(s[k] == '*' && 0 <= k < s.len());
            assert(term_rest(s, vars, k, va) == shift(
                term_rest(s, vars, k + 1 + rx.len(), vp),
                (1 + rx.len()) as nat,
            ));
            crate::grammar::lemma_shift_shift(
                term_rest(s, vars, k + 1 + rx.len(), vp),
                (1 + rx.len()) as nat,
                ra.len(),
            );
        },
    }
}

proof fn lemma_product_whole(
    s: Seq<char>,
    vars: Map<Seq<char>, ValueModel>,
    i: int,
    p: Product,
    slot: Slot,
)
    requires
        placed(s, i, render_product(p)),
        after_product(s, i + render_product(p).len()),
        fits_product(p),
    ensures
        term(s, vars, i, slot) == Ok::<(i32, nat), ParseError>(
            (value_product(p) as i32, render_product(p).len()),
        ),
    decreases p, 1int,
{
    lemma_product_run(s, vars, i, p, slot);
    assert(ws_len(s, i + render_product(p).len()) == 0);
}

proof fn lemma_sum_run(s: Seq<char>, vars: Map<Seq<char>, ValueModel>, i: int, e: Sum)
    requires
        placed(s, i, render_sum(e)),
        after_product(s, i + render_sum(e).len()),
        fits_sum(e),
    ensures
        expression(s, vars, i) == shift(
            expr_rest(s, vars, i + render_sum(e).len(), value_sum(e) as i32),
            render_sum(e).len(),
        ),
    decreases e, 2int,
{
    match e {
        Sum::One(p) => {
            lemma_product_whole(s, vars, i, p, Slot::Start);
        },
        Sum::Plus(a, p) => {
            let ra = render_sum(*a);
            let rp = render_product(p);
            lemma_placed_parts(s, i, ra, '+', rp);
            let k = i + ra.len();
            lemma_sum_run(s, vars, i, *a);
            lemma_product_whole(s, vars, k + 1, p, Slot::AfterOperator);
            assert(ws_len(s, k) == 0);
            let v = value_sum(e) as i32;
            assert(fits_sum(*a) && fits_product(p));
            assert(in_range(value_sum(*a)) && in_range(value_product(p)));
            assert(0 <= k < s.len());
            assert(expr_rest(s, vars, k, value_sum(*a) as i32) == shift(
                expr_rest(s, vars, k + 1 + rp.len(), v),
                (1 + rp.len()) as nat,
            ));
            crate::grammar::lemma_shift_shift(
                expr_rest(s, vars, k + 1 + rp.len(), v),
                (1 + rp.len()) as nat,
                ra.len(),
            );
        },
        Sum::Minus(a, p) => {
            let ra = render_sum(*a);
            let rp = render_product(p);
            lemma_placed_parts(s, i, ra, '-', rp);
            let k = i + ra.len();
            lemma_sum_run(s, vars, i, *a);
            lemma_product_whole(s, vars, k + 1, p, Slot::AfterOperator);
            assert(ws_len(s, k) == 0);
            let v = value_sum(e) as i32;
            assert(fits_sum(*a) && fits_product(p));
            assert(in_range(value_sum(*a)) && in_range(value_product(p)));
            assert(0 <= k < s.len());
            assert(expr_rest(s, vars, k, value_sum(*a) as i32) == shift(
                expr_rest(s, vars, k + 1 + rp.len(), v),
                (1 + rp.len()) as nat,
            ));
            crate::grammar::lemma_shift_shift(
                expr_rest(s, vars, k + 1 + rp.len(), v),
                (1 + rp.len()) as nat,
                ra.len(),
            );
        },
    }
}

/// Arithmetic is evaluated the standard way: `*` binds tighter than `+` and
/// `-`, operators of one level apply from the left, and parentheses group.
/// Whenever every number and every partial result fits in 32 signed bits, the
/// text of `e` evaluates to the integer value of `e`, whatever the variables.
pub proof fn law_standard_arithmetic(e: Sum, vars: Map<Seq<char>, ValueModel>)
    requires
        fits_sum(e),
    ensures
        evaluation(render_sum(e), vars) == Ok::<ValueModel, ParseError>(
            ValueModel::Int(value_sum(e) as i32),
        ),
{
    let s = render_sum(e);
    let len = s.len() as int;
    lemma_sum_starts(e);
    assert(s.subrange(0, len) =~= s);
    assert(ws_len(s, 0) == 0);
    assert(ws_len(s, len) == 0);
    lemma_sum_run(s, vars, 0, e);
    assert(expr_rest(s, vars, len, value_sum(e) as i32) == Ok::<(i32, nat), ParseError>(
        (value_sum(e) as i32, 0),
    ));
}

} // verus!
