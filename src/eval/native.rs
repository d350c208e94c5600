use crate::data::list::List;
use crate::eval::types::{copy_list, EvalError, Expression, NativeOp, Value};
use vstd::prelude::*;

verus! {

/// Float arithmetic, supplied by the host. Floats are IEEE-754 bit patterns.
pub trait Floats {
    /// The float nearest to `i`.
    fn from_int(&self, i: i64) -> u64;


    fn add(&self, a: u64, b: u64) -> u64;

    fn sub(&self, a: u64, b: u64) -> u64;

    fn mul(&self, a: u64, b: u64) -> u64;

    fn div(&self, a: u64, b: u64) -> u64;

    fn neg(&self, a: u64) -> u64;

    fn pow(&self, a: u64, b: u64) -> u64;

    fn less(&self, a: u64, b: u64) -> bool;

    fn equal(&self, a: u64, b: u64) -> bool;

    /// The float a bare atom denotes, if it denotes one.
    fn parse(&self, text: &String) -> Option<u64>;

    /// The float written out.
    fn show(&self, x: u64) -> String;
}

/// What a native call returns, as far as the arguments alone decide.
pub enum NativeOutcome {
    Done(Result<Expression, EvalError>),
    /// A float, which the float unit computes.
    Float,
    /// A chained comparison that reaches a pair of floats: it comes out as
    /// [`chain_with`] says for the float unit's answers.
    Compare,
}

pub open spec fn is_float(e: Expression) -> bool {
    e matches Expression::Value(Value::Float64(_))
}

pub open spec fn is_number(e: Expression) -> bool {
    e matches Expression::Value(Value::Int64(_)) || is_float(e)
}

pub open spec fn all_numbers(args: Seq<Expression>) -> bool {
    forall|k: int| 0 <= k < args.len() ==> is_number(#[trigger] args[k])
}

pub open spec fn any_float(args: Seq<Expression>) -> bool {
    exists|k: int| 0 <= k < args.len() && is_float(#[trigger] args[k])
}

/// An integer zero, or a float zero of either sign.
pub open spec fn is_zero(e: Expression) -> bool {
    e == Expression::Value(Value::Int64(0)) || e == Expression::Value(Value::Float64(0)) || e == Expression::Value(
        Value::Float64(0x8000_0000_0000_0000),
    )
}

/// Whether a divisor (an argument after the first) is zero.
pub open spec fn zero_divisor(args: Seq<Expression>) -> bool {
    exists|k: int| 1 <= k < args.len() && is_zero(#[trigger] args[k])
}

pub open spec fn int_value(i: int) -> Expression {
    Expression::Value(Value::Int64(i as i64))
}

/// The integer an argument holds; anything else counts as 0.
pub open spec fn int_of(e: Expression) -> int {
    match e {
        Expression::Value(Value::Int64(v)) => v as int,
        _ => 0,
    }
}

pub open spec fn all_ints(args: Seq<Expression>) -> bool {
    forall|k: int| 0 <= k < args.len() ==> (#[trigger] args[k]) matches Expression::Value(Value::Int64(_))
}

/// `args[lo] + ... + args[hi - 1]`, exactly.
pub open spec fn sum_range(args: Seq<Expression>, lo: int, hi: int) -> int
    decreases hi - lo,
{
    if hi <= lo {
        0
    } else {
        sum_range(args, lo, hi - 1) + int_of(args[hi - 1])
    }
}

/// `args[lo] * ... * args[hi - 1]`, exactly.
pub open spec fn product_range(args: Seq<Expression>, lo: int, hi: int) -> int
    decreases hi - lo,
{
    if hi <= lo {
        1
    } else {
        product_range(args, lo, hi - 1) * int_of(args[hi - 1])
    }
}

/// `a / b` rounded toward zero, as integer division in Rust.
pub open spec fn trunc_div(a: int, b: int) -> int {
    if a == 0 {
        0
    } else if a > 0 && b > 0 {
        a / b
    } else if a < 0 && b < 0 {
        (a * -1) / (b * -1)
    } else if a < 0 {
        ((a * -1) / b) * -1
    } else {
        (a / (b * -1)) * -1
    }
}

/// `args[0] / args[1] / ... / args[hi - 1]`, each division exact and
/// rounded toward zero.
pub open spec fn quotient_to(args: Seq<Expression>, hi: int) -> int
    decreases hi,
{
    if hi <= 1 {
        int_of(args[0])
    } else {
        trunc_div(quotient_to(args, hi - 1), int_of(args[hi - 1]))
    }
}

/// The exact integer result `x`, or an overflow when it does not fit.
pub open spec fn exact(x: int) -> NativeOutcome {
    if i64::MIN <= x <= i64::MAX {
        NativeOutcome::Done(Ok(int_value(x)))
    } else {
        NativeOutcome::Done(Err(EvalError::Overflow))
    }
}

/// `+ - * /` on numbers. Integers alone give the exact integer result, an
/// overflow only when that result does not fit in 64 bits, and a division
/// by zero when a divisor is zero. Any float makes the result a float, and a
/// zero divisor is then an error too.
pub open spec fn arith(op: NativeOp, args: Seq<Expression>) -> NativeOutcome {
    let n = args.len() as int;
    if args.len() == 0 || !all_numbers(args) {
        NativeOutcome::Done(Err(EvalError::Type))
    } else if any_float(args) {
        if op == NativeOp::Divide && zero_divisor(args) {
            NativeOutcome::Done(Err(EvalError::DivisionByZero))
        } else {
            NativeOutcome::Float
        }
    } else {
        match op {
            NativeOp::Sum => exact(sum_range(args, 0, n)),
            NativeOp::Multiply => exact(product_range(args, 0, n)),
            NativeOp::Subtract => if n == 1 {
                exact(-int_of(args[0]))
            } else {
                exact(int_of(args[0]) - sum_range(args, 1, n))
            },
            _ => if zero_divisor(args) {
                NativeOutcome::Done(Err(EvalError::DivisionByZero))
            } else {
                exact(quotient_to(args, n))
            },
        }
    }
}


pub open spec fn int_pow(b: int, p: nat) -> int
    decreases p,
{
    if p == 0 {
        1
    } else {
        int_pow(b, (p - 1) as nat) * b
    }
}

/// `pow`: two integers, or two floats.
pub open spec fn pow(args: Seq<Expression>) -> NativeOutcome {
    if args.len() != 2 {
        NativeOutcome::Done(Err(EvalError::Type))
    } else {
        match (args[0], args[1]) {
            (Expression::Value(Value::Int64(b)), Expression::Value(Value::Int64(p))) => if p < 0 {
                NativeOutcome::Done(Err(EvalError::Type))
            } else if i64::MIN <= int_pow(b as int, p as nat) <= i64::MAX {
                NativeOutcome::Done(Ok(int_value(int_pow(b as int, p as nat))))
            } else {
                NativeOutcome::Done(Err(EvalError::Overflow))
            },
            (Expression::Value(Value::Float64(_)), Expression::Value(Value::Float64(_))) => NativeOutcome::Float,
            _ => NativeOutcome::Done(Err(EvalError::Type)),
        }
    }
}

/// How one comparison of two neighbours comes out.
pub enum PairOrder {
    Holds,
    Fails,
    Host,
    Bad,
}

pub open spec fn int_holds(op: NativeOp, a: i64, b: i64) -> bool {
    match op {
        NativeOp::Eq => a == b,
        NativeOp::Ne => a != b,
        NativeOp::Gt => a > b,
        NativeOp::Lt => a < b,
        NativeOp::Ge => a >= b,
        _ => a <= b,
    }
}

pub open spec fn is_equality(op: NativeOp) -> bool {
    op == NativeOp::Eq || op == NativeOp::Ne
}

pub open spec fn pair_order(op: NativeOp, a: Expression, b: Expression) -> PairOrder {
    let verdict = |h: bool| if h {
        PairOrder::Holds
    } else {
        PairOrder::Fails
    };
    match (a, b) {
        (Expression::Value(Value::Int64(x)), Expression::Value(Value::Int64(y))) => verdict(int_holds(op, x, y)),
        (Expression::Value(Value::Float64(_)), Expression::Value(Value::Float64(_))) => PairOrder::Host,
        (Expression::Value(Value::String(x)), Expression::Value(Value::String(y))) => if is_equality(op) {
            verdict((x@ == y@) == (op == NativeOp::Eq))
        } else {
            PairOrder::Bad
        },
        (Expression::Value(Value::Bool(x)), Expression::Value(Value::Bool(y))) => if is_equality(op) {
            verdict((x == y) == (op == NativeOp::Eq))
        } else {
            PairOrder::Bad
        },
        _ => PairOrder::Bad,
    }
}

/// Chained comparison from position `i`: `(op a b c)` is `(op a b)` and
/// `(op b c)`; the first pair that fails decides.
pub open spec fn chain(op: NativeOp, args: Seq<Expression>, i: int) -> NativeOutcome
    decreases args.len() - i,
{
    if i < 0 || i + 1 >= args.len() {
        NativeOutcome::Done(Ok(Expression::Value(Value::Bool(true))))
    } else {
        match pair_order(op, args[i], args[i + 1]) {
            PairOrder::Holds => chain(op, args, i + 1),
            PairOrder::Fails => NativeOutcome::Done(Ok(Expression::Value(Value::Bool(false)))),
            PairOrder::Host => NativeOutcome::Compare,
            PairOrder::Bad => NativeOutcome::Done(Err(EvalError::Type)),
        }
    }
}

/// The answer given for pair `i`; pairs past the end are answered false.
pub open spec fn answer_at(answers: Seq<bool>, i: int) -> bool {
    0 <= i < answers.len() && answers[i]
}

/// One comparison, where `answer` is the float unit's verdict on a pair of
/// floats.
pub open spec fn pair_with(op: NativeOp, a: Expression, b: Expression, answer: bool) -> Result<bool, EvalError> {
    match pair_order(op, a, b) {
        PairOrder::Holds => Ok(true),
        PairOrder::Fails => Ok(false),
        PairOrder::Host => Ok(answer),
        PairOrder::Bad => Err(EvalError::Type),
    }
}

/// The chained comparison from pair `i`, with `answers[k]` the float unit's
/// verdict on pair `k` wherever that pair is two floats.
pub open spec fn chain_with(op: NativeOp, args: Seq<Expression>, i: int, answers: Seq<bool>) -> Result<Expression, EvalError>
    decreases args.len() - i,
{
    if i < 0 || i + 1 >= args.len() {
        Ok(Expression::Value(Value::Bool(true)))
    } else {
        match pair_with(op, args[i], args[i + 1], answer_at(answers, i)) {
            Ok(true) => chain_with(op, args, i + 1, answers),
            Ok(false) => Ok(Expression::Value(Value::Bool(false))),
            Err(x) => Err(x),
        }
    }
}

/// Where [`chain`] decides alone, every set of answers agrees with it.
pub proof fn lemma_chain_exact(op: NativeOp, args: Seq<Expression>, i: int, answers: Seq<bool>)
    ensures
        chain(op, args, i) matches NativeOutcome::Done(x) ==> chain_with(op, args, i, answers) == x,
        !(chain(op, args, i) is Float),
    decreases args.len() - i,
{
    if !(i < 0 || i + 1 >= args.len()) {
        lemma_chain_exact(op, args, i + 1, answers);
    }
}

/// Whether `r` is a result that native `op` may give on `args`: exactly the
/// one [`native`] gives, or a float, or a comparison over some answers of
/// the float unit.
pub open spec fn native_allows(op: NativeOp, args: Seq<Expression>, r: Result<Expression, EvalError>) -> bool {
    match native(op, args) {
        NativeOutcome::Done(x) => r == x,
        NativeOutcome::Float => r matches Ok(Expression::Value(Value::Float64(_))),
        NativeOutcome::Compare => exists|answers: Seq<bool>| r == chain_with(op, args, 0, answers),
    }
}

/// The values a vector of references points to.
pub open spec fn derefs(v: Seq<&Expression>) -> Seq<Expression> {
    v.map_values(|x: &Expression| *x)
}

/// What native `op` returns on `args`.
pub open spec fn native(op: NativeOp, args: Seq<Expression>) -> NativeOutcome {
    match op {
        NativeOp::Begin => NativeOutcome::Done(Ok(if args.len() == 0 {
            Expression::Value(Value::Nil)
        } else {
            args.last()
        })),
        NativeOp::List => NativeOutcome::Done(Ok(Expression::List(Box::new(List::from_seq(args))))),
        NativeOp::Pow => pow(args),
        NativeOp::Sum | NativeOp::Subtract | NativeOp::Multiply | NativeOp::Divide => arith(op, args),
        _ => if args.len() < 2 {
            NativeOutcome::Done(Err(EvalError::TooFewArguments))
        } else {
            chain(op, args, 0)
        },
    }
}

proof fn lemma_pow_unit(b: int, p: nat)
    requires
        -1 <= b <= 1,
    ensures
        b == 0 ==> int_pow(b, p) == if p == 0 {
            1int
        } else {
            0int
        },
        b == 1 ==> int_pow(b, p) == 1,
        b == -1 ==> int_pow(b, p) == if p % 2 == 0 {
            1int
        } else {
            -1int
        },
    decreases p,
{
    if p > 0 {
        lemma_pow_unit(b, (p - 1) as nat);
    }
}

pub open spec fn abs(x: int) -> int {
    if x < 0 {
        -x
    } else {
        x
    }
}

proof fn lemma_pow_grows(b: int, n: nat, m: nat)
    requires
        b <= -2 || b >= 2,
        n < m,
    ensures
        abs(int_pow(b, m)) >= 2 * abs(int_pow(b, n)),
    decreases m,
{
    let q = int_pow(b, (m - 1) as nat);
    assert(int_pow(b, m) == q * b);
    assert(abs(q * b) >= 2 * abs(q)) by (nonlinear_arith)
        requires
            b <= -2 || b >= 2,
            abs(q) == (if q < 0 {
                -q
            } else {
                q
            }),
            abs(q * b) == (if q * b < 0 {
                -(q * b)
            } else {
                q * b
            }),
    ;
    if n < m - 1 {
        lemma_pow_grows(b, n, (m - 1) as nat);
    }
}

const TWO_63: i128 = 0x8000_0000_0000_0000;

fn float_step<F: Floats>(op: NativeOp, acc: u64, v: u64, fu: &F) -> u64 {
    match op {
        NativeOp::Sum => fu.add(acc, v),
        NativeOp::Subtract => fu.sub(acc, v),
        NativeOp::Multiply => fu.mul(acc, v),
        _ => fu.div(acc, v),
    }
}

/// The integer argument `e` holds.
fn int_exec(e: &Expression) -> (r: i64)
    ensures
        r as int == int_of(*e),
{
    match e {
        Expression::Value(Value::Int64(x)) => *x,
        _ => 0,
    }
}

proof fn lemma_int_of_bounds(e: Expression)
    ensures
        i64::MIN <= int_of(e) <= i64::MAX,
{
}

/// `args[lo..]` summed exactly. With fewer than `usize::MAX` terms of at
/// most 2^63 each, the sum stays well inside `i128`.
fn sum_exec(args: &Vec<&Expression>, lo: usize) -> (r: i128)
    requires
        lo <= args@.len(),
    ensures
        r as int == sum_range(derefs(args@), lo as int, args@.len() as int),
{
    let ghost s = derefs(args@);
    let mut acc: i128 = 0;
    let mut i = lo;
    while i < args.len()
        invariant
            lo <= i <= args@.len(),
            s == derefs(args@),
            acc as int == sum_range(s, lo as int, i as int),
            -((i - lo) as int) * (TWO_63 as int) <= acc as int <= ((i - lo) as int) * (TWO_63 as int),
        decreases args@.len() - i,
    {
        let v = int_exec(args[i]);
        proof {
            assert(s[i as int] == *args@[i as int]);
            lemma_int_of_bounds(s[i as int]);
            assert(i - lo + 1 <= usize::MAX);
            assert(((i - lo + 1) as int) * (TWO_63 as int) <= (usize::MAX as int) * (TWO_63 as int));
            assert((usize::MAX as int) * (TWO_63 as int) < i128::MAX);
        }
        acc = acc + v as i128;
        i = i + 1;
    }
    acc
}

/// Whether some argument from `lo` on is zero.
fn has_zero_from(args: &Vec<&Expression>, lo: usize) -> (r: bool)
    ensures
        r == exists|k: int| lo <= k < args@.len() && is_zero(#[trigger] derefs(args@)[k]),
{
    let ghost s = derefs(args@);
    let mut i: usize = lo;
    while i < args.len()
        invariant
            lo <= i,
            s == derefs(args@),
            forall|k: int| lo <= k < i && k < s.len() ==> !is_zero(#[trigger] s[k]),
        decreases args@.len() - i,
    {
        let zero = match args[i] {
            Expression::Value(Value::Int64(x)) => *x == 0,
            Expression::Value(Value::Float64(x)) => *x == 0 || *x == 0x8000_0000_0000_0000,
            _ => false,
        };
        if zero {
            proof {
                assert(is_zero(s[i as int]));
            }
            return true;
        }
        proof {
            assert(!is_zero(s[i as int]));
        }
        i = i + 1;
    }
    false
}

proof fn lemma_product_zero(args: Seq<Expression>, hi: int, k: int)
    requires
        0 <= k < hi,
        int_of(args[k]) == 0,
    ensures
        product_range(args, 0, hi) == 0,
    decreases hi,
{
    if k < hi - 1 {
        lemma_product_zero(args, hi - 1, k);
    }
}

proof fn lemma_product_grows(args: Seq<Expression>, i: int, hi: int)
    requires
        0 <= i <= hi,
        forall|k: int| i <= k < hi ==> int_of(#[trigger] args[k]) != 0,
    ensures
        abs(product_range(args, 0, hi)) >= abs(product_range(args, 0, i)),
    decreases hi - i,
{
    if i < hi {
        lemma_product_grows(args, i, hi - 1);
        let p = product_range(args, 0, hi - 1);
        let x = int_of(args[hi - 1]);
        assert(x != 0);
        assert(abs(p * x) >= abs(p)) by (nonlinear_arith)
            requires
                x != 0,
                abs(p) == (if p < 0 {
                    -p
                } else {
                    p
                }),
                abs(p * x) == (if p * x < 0 {
                    -(p * x)
                } else {
                    p * x
                }),
        ;
    }
}

/// The exact product of integer arguments with no zero among them, or `None`
/// when it does not fit in 64 bits.
fn product_exec(args: &Vec<&Expression>) -> (r: Option<i128>)
    requires
        forall|k: int| 0 <= k < args@.len() ==> int_of(#[trigger] derefs(args@)[k]) != 0,
    ensures
        r matches Some(p) ==> p as int == product_range(derefs(args@), 0, args@.len() as int),
        r is None ==> !(i64::MIN <= product_range(derefs(args@), 0, args@.len() as int) <= i64::MAX),
{
    let ghost s = derefs(args@);
    let mut acc: i128 = 1;
    let mut i: usize = 0;
    while i < args.len()
        invariant
            i <= args@.len(),
            s == derefs(args@),
            forall|k: int| 0 <= k < args@.len() ==> int_of(#[trigger] s[k]) != 0,
            acc as int == product_range(s, 0, i as int),
            -(TWO_63 as int) <= acc as int <= TWO_63 as int,
        decreases args@.len() - i,
    {
        let v = int_exec(args[i]);
        proof {
            assert(s[i as int] == *args@[i as int]);
            lemma_int_of_bounds(s[i as int]);
            let a = acc as int;
            let b = v as int;
            assert(-0x4000_0000_0000_0000_0000_0000_0000_0000 <= a * b <= 0x4000_0000_0000_0000_0000_0000_0000_0000) by (nonlinear_arith)
                requires
                    -0x8000_0000_0000_0000 <= a <= 0x8000_0000_0000_0000,
                    -0x8000_0000_0000_0000 <= b <= 0x8000_0000_0000_0000,
            ;
        }
        let next = acc * (v as i128);
        if next > TWO_63 || next < -TWO_63 {
            proof {
                lemma_product_grows(s, i + 1, args@.len() as int);
            }
            return None;
        }
        acc = next;
        i = i + 1;
    }
    Some(acc)
}

/// The exact quotient of integer arguments with no zero divisor.
fn quotient_exec(args: &Vec<&Expression>) -> (r: i128)
    requires
        args@.len() >= 1,
        forall|k: int| 1 <= k < args@.len() ==> int_of(#[trigger] derefs(args@)[k]) != 0,
    ensures
        r as int == quotient_to(derefs(args@), args@.len() as int),
{
    let ghost s = derefs(args@);
    let mut acc: i128 = int_exec(args[0]) as i128;
    proof {
        assert(s[0] == *args@[0]);
        lemma_int_of_bounds(s[0]);
    }
    let mut i: usize = 1;
    while i < args.len()
        invariant
            1 <= i <= args@.len(),
            s == derefs(args@),
            forall|k: int| 1 <= k < args@.len() ==> int_of(#[trigger] s[k]) != 0,
            acc as int == quotient_to(s, i as int),
            -(TWO_63 as int) <= acc as int <= TWO_63 as int,
        decreases args@.len() - i,
    {
        let v = int_exec(args[i]);
        proof {
            assert(s[i as int] == *args@[i as int]);
            assert(v != 0);
        }
        match acc.checked_div(v as i128) {
            Some(q) => {
                proof {
                    let a = acc as int;
                    let d = v as int;
                    assert(q as int == trunc_div(a, d));
                    assert(-(TWO_63 as int) <= trunc_div(a, d) <= TWO_63 as int) by {
                        if a > 0 && d > 0 {
                            assert(a / d <= a) by (nonlinear_arith)
                                requires
                                    a > 0,
                                    d > 0,
                            ;
                        } else if a < 0 && d < 0 {
                            assert((a * -1) / (d * -1) <= a * -1) by (nonlinear_arith)
                                requires
                                    a < 0,
                                    d < 0,
                            ;
                        } else if a < 0 {
                            assert((a * -1) / d <= a * -1) by (nonlinear_arith)
                                requires
                                    a < 0,
                                    d > 0,
                            ;
                        } else if a > 0 {
                            assert(a / (d * -1) <= a) by (nonlinear_arith)
                                requires
                                    a > 0,
                                    d < 0,
                            ;
                        }
                    }
                }
                acc = q;
            },
            None => {
                proof {
                    assert(false);
                }
            },
        }
        i = i + 1;
    }
    acc
}

/// `x` as an integer result: its value, or an overflow when it does not fit.
fn exact_exec(x: i128) -> (r: Result<Expression, EvalError>)
    ensures
        exact(x as int) matches NativeOutcome::Done(y) && r == y,
{
    if x >= i64::MIN as i128 && x <= i64::MAX as i128 {
        Ok(Expression::Value(Value::Int64(x as i64)))
    } else {
        Err(EvalError::Overflow)
    }
}

/// A number as a float: integers are converted by the float unit.
fn as_float<F: Floats>(e: &Expression, fu: &F) -> u64 {
    match e {
        Expression::Value(Value::Int64(x)) => fu.from_int(*x),
        Expression::Value(Value::Float64(x)) => *x,
        _ => 0,
    }
}

/// Folds `op` over `args[start..]` from the float `init`.
fn float_fold<F: Floats>(op: NativeOp, init: u64, args: &Vec<&Expression>, start: usize, fu: &F) -> (r: Expression)
    ensures
        r matches Expression::Value(Value::Float64(_)),
{
    let mut acc = init;
    let mut i = start;
    while i < args.len()
        decreases args@.len() - i,
    {
        let v = as_float(args[i], fu);
        acc = float_step(op, acc, v, fu);
        i = i + 1;
    }
    Expression::Value(Value::Float64(acc))
}

/// Whether every argument is a number, and whether one is a float.
fn kinds(args: &Vec<&Expression>) -> (r: (bool, bool))
    ensures
        r.0 == all_numbers(args@.map_values(|x: &Expression| *x)),
        r.1 == any_float(args@.map_values(|x: &Expression| *x)),
{
    let ghost s = args@.map_values(|x: &Expression| *x);
    let mut numbers = true;
    let mut float = false;
    let mut i: usize = 0;
    while i < args.len()
        invariant
            i <= args@.len(),
            s == args@.map_values(|x: &Expression| *x),
            numbers == all_numbers(s.subrange(0, i as int)),
            float == any_float(s.subrange(0, i as int)),
        decreases args@.len() - i,
    {
        let ghost before = s.subrange(0, i as int);
        match args[i] {
            Expression::Value(Value::Int64(_)) => {},
            Expression::Value(Value::Float64(_)) => {
                float = true;
            },
            _ => {
                numbers = false;
            },
        }
        i = i + 1;
        proof {
            let now = s.subrange(0, i as int);
            assert(now.drop_last() =~= before);
            assert(now.last() == s[i - 1]);
            if float {
                if is_float(now.last()) {
                    assert(is_float(now[i - 1]));
                } else {
                    let k = choose|k: int| 0 <= k < before.len() && is_float(#[trigger] before[k]);
                    assert(now[k] == before[k]);
                }
            } else {
                assert forall|k: int| 0 <= k < now.len() implies !is_float(#[trigger] now[k]) by {
                    if k < before.len() {
                        assert(now[k] == before[k]);
                    }
                }
            }
            if numbers {
                assert forall|k: int| 0 <= k < now.len() implies is_number(#[trigger] now[k]) by {
                    if k < before.len() {
                        assert(now[k] == before[k]);
                    }
                }
            } else if is_number(now.last()) {
                let k = choose|k: int| 0 <= k < before.len() && !is_number(#[trigger] before[k]);
                assert(now[k] == before[k]);
            } else {
                assert(!is_number(now[i - 1]));
            }
        }
    }
    proof {
        assert(s.subrange(0, i as int) =~= s);
    }
    (numbers, float)
}

fn arith_exec<F: Floats>(op: NativeOp, args: &Vec<&Expression>, fu: &F) -> (r: Result<Expression, EvalError>)
    requires
        op == NativeOp::Sum || op == NativeOp::Subtract || op == NativeOp::Multiply || op == NativeOp::Divide,
    ensures
        native_allows(op, args@.map_values(|x: &Expression| *x), r),
{
    let ghost s = args@.map_values(|x: &Expression| *x);
    if args.len() == 0 {
        return Err(EvalError::Type);
    }
    let (numbers, float) = kinds(args);
    if !numbers {
        return Err(EvalError::Type);
    }
    if float {
        if op == NativeOp::Divide && has_zero_from(args, 1) {
            return Err(EvalError::DivisionByZero);
        }
        let first = as_float(args[0], fu);
        let v = match op {
            NativeOp::Subtract => if args.len() == 1 {
                Expression::Value(Value::Float64(fu.neg(first)))
            } else {
                float_fold(op, first, args, 1, fu)
            },
            _ => float_fold(op, first, args, 1, fu),
        };
        return Ok(v);
    }
    proof {
        assert(s == derefs(args@));
        assert forall|k: int| 0 <= k < s.len() implies (#[trigger] s[k]) matches Expression::Value(Value::Int64(_)) by {
            assert(is_number(s[k]));
            if is_float(s[k]) {
                assert(any_float(s));
            }
        }
    }
    let n = args.len();
    match op {
        NativeOp::Sum => exact_exec(sum_exec(args, 0)),
        NativeOp::Subtract => if n == 1 {
            let first = int_exec(args[0]);
            proof {
                assert(s[0] == *args@[0]);
            }
            exact_exec(-(first as i128))
        } else {
            let first = int_exec(args[0]);
            let rest = sum_exec(args, 1);
            proof {
                assert(s[0] == *args@[0]);
                lemma_int_of_bounds(s[0]);
                assert(-((usize::MAX as int) * (TWO_63 as int)) <= rest as int <= (usize::MAX as int) * (TWO_63 as int)) by {
                    lemma_sum_bound(s, 1, n as int);
                }
            }
            exact_exec(first as i128 - rest)
        },
        NativeOp::Multiply => if has_zero_from(args, 0) {
            proof {
                let k = choose|k: int| 0 <= k < args@.len() && is_zero(#[trigger] derefs(args@)[k]);
                lemma_product_zero(s, n as int, k);
            }
            Ok(Expression::Value(Value::Int64(0)))
        } else {
            proof {
                assert forall|k: int| 0 <= k < args@.len() implies int_of(#[trigger] derefs(args@)[k]) != 0 by {
                    if int_of(s[k]) == 0 {
                        assert(is_zero(s[k]));
                    }
                }
            }
            match product_exec(args) {
                Some(p) => exact_exec(p),
                None => Err(EvalError::Overflow),
            }
        },
        _ => if has_zero_from(args, 1) {
            Err(EvalError::DivisionByZero)
        } else {
            proof {
                assert forall|k: int| 1 <= k < args@.len() implies int_of(#[trigger] derefs(args@)[k]) != 0 by {
                    if int_of(s[k]) == 0 {
                        assert(is_zero(s[k]));
                    }
                }
            }
            exact_exec(quotient_exec(args))
        },
    }
}

proof fn lemma_sum_bound(args: Seq<Expression>, lo: int, hi: int)
    requires
        0 <= lo <= hi,
        hi - lo <= usize::MAX,
    ensures
        -((hi - lo) * 0x8000_0000_0000_0000) <= sum_range(args, lo, hi) <= (hi - lo) * 0x8000_0000_0000_0000,
    decreases hi - lo,
{
    if lo < hi {
        lemma_sum_bound(args, lo, hi - 1);
        lemma_int_of_bounds(args[hi - 1]);
    }
}

fn pow_exec<F: Floats>(args: &Vec<&Expression>, fu: &F) -> (r: Result<Expression, EvalError>)
    ensures
        pow(args@.map_values(|x: &Expression| *x)) matches NativeOutcome::Done(x) ==> r == x,
        pow(args@.map_values(|x: &Expression| *x)) is Float ==> r matches Ok(Expression::Value(Value::Float64(_))),
{
    if args.len() != 2 {
        return Err(EvalError::Type);
    }
    match (args[0], args[1]) {
        (Expression::Value(Value::Int64(b)), Expression::Value(Value::Int64(p))) => {
            let b = *b;
            let p = *p;
            if p < 0 {
                return Err(EvalError::Type);
            }
            if -1 <= b && b <= 1 {
                proof {
                    lemma_pow_unit(b as int, p as nat);
                }
                let r: i64 = if b == 0 {
                    if p == 0 {
                        1
                    } else {
                        0
                    }
                } else if b == 1 || p % 2 == 0 {
                    1
                } else {
                    -1
                };
                return Ok(Expression::Value(Value::Int64(r)));
            }
            let mut acc: i64 = 1;
            let mut k: i64 = 0;
            while k < p
                invariant
                    0 <= k <= p,
                    b <= -2 || b >= 2,
                    acc as int == int_pow(b as int, k as nat),
                    args@.len() == 2,
                    *args@[0] == Expression::Value(Value::Int64(b)),
                    *args@[1] == Expression::Value(Value::Int64(p)),
                decreases p - k,
            {
                match acc.checked_mul(b) {
                    Some(n) => {
                        acc = n;
                    },
                    None => {
                        proof {
                            assert(int_pow(b as int, (k + 1) as nat) == int_pow(b as int, k as nat) * b);
                            assert(abs(int_pow(b as int, (k + 1) as nat)) > i64::MAX);
                            if k + 1 < p {
                                lemma_pow_grows(b as int, (k + 1) as nat, p as nat);
                                assert(abs(int_pow(b as int, p as nat)) > 2 * i64::MAX);
                            }
                            assert(!(i64::MIN <= int_pow(b as int, p as nat) <= i64::MAX));
                        }
                        return Err(EvalError::Overflow);
                    },
                }
                k = k + 1;
            }
            Ok(Expression::Value(Value::Int64(acc)))
        },
        (Expression::Value(Value::Float64(b)), Expression::Value(Value::Float64(p))) => Ok(
            Expression::Value(Value::Float64(fu.pow(*b, *p))),
        ),
        _ => Err(EvalError::Type),
    }
}

/// One comparison, with `answer` standing for the float unit's verdict on a
/// pair of floats.
fn pair_decide(op: NativeOp, a: &Expression, b: &Expression, answer: bool) -> (r: Result<bool, EvalError>)
    ensures
        r == pair_with(op, *a, *b, answer),
{
    let equality = match op {
        NativeOp::Eq | NativeOp::Ne => true,
        _ => false,
    };
    let eq = match op {
        NativeOp::Eq => true,
        _ => false,
    };
    match (a, b) {
        (Expression::Value(Value::Int64(x)), Expression::Value(Value::Int64(y))) => Ok(
            match op {
                NativeOp::Eq => *x == *y,
                NativeOp::Ne => *x != *y,
                NativeOp::Gt => *x > *y,
                NativeOp::Lt => *x < *y,
                NativeOp::Ge => *x >= *y,
                _ => *x <= *y,
            },
        ),
        (Expression::Value(Value::Float64(_)), Expression::Value(Value::Float64(_))) => Ok(answer),
        (Expression::Value(Value::String(x)), Expression::Value(Value::String(y))) => if equality {
            Ok(x.eq(y) == eq)
        } else {
            Err(EvalError::Type)
        },
        (Expression::Value(Value::Bool(x)), Expression::Value(Value::Bool(y))) => if equality {
            Ok((*x == *y) == eq)
        } else {
            Err(EvalError::Type)
        },
        _ => Err(EvalError::Type),
    }
}

/// The chained comparison of `args`, with `answers[k]` the float unit's
/// verdict on pair `k` wherever that pair is two floats.
pub fn chain_decide(op: NativeOp, args: &Vec<&Expression>, answers: &Vec<bool>) -> (r: Result<Expression, EvalError>)
    ensures
        r == chain_with(op, args@.map_values(|x: &Expression| *x), 0, answers@),
{
    let ghost s = args@.map_values(|x: &Expression| *x);
    let mut i: usize = 0;
    while i < args.len() && i + 1 < args.len()
        invariant
            s == args@.map_values(|x: &Expression| *x),
            chain_with(op, s, 0, answers@) == chain_with(op, s, i as int, answers@),
        decreases args@.len() - i,
    {
        let answer = i < answers.len() && answers[i];
        match pair_decide(op, args[i], args[i + 1], answer) {
            Ok(true) => {},
            Ok(false) => {
                return Ok(Expression::Value(Value::Bool(false)));
            },
            Err(x) => {
                return Err(x);
            },
        }
        i = i + 1;
    }
    Ok(Expression::Value(Value::Bool(true)))
}

/// The float unit's verdict on `a op b`.
fn float_verdict<F: Floats>(op: NativeOp, a: u64, b: u64, fu: &F) -> bool {
    match op {
        NativeOp::Eq => fu.equal(a, b),
        NativeOp::Ne => !fu.equal(a, b),
        NativeOp::Gt => fu.less(b, a),
        NativeOp::Lt => fu.less(a, b),
        NativeOp::Ge => fu.less(b, a) || fu.equal(a, b),
        _ => fu.less(a, b) || fu.equal(a, b),
    }
}

/// Asks the float unit about every pair of floats, then decides the chain.
fn chain_exec<F: Floats>(op: NativeOp, args: &Vec<&Expression>, fu: &F) -> (r: Result<Expression, EvalError>)
    ensures
        exists|answers: Seq<bool>| r == #[trigger] chain_with(op, derefs(args@), 0, answers),
{
    let mut answers: Vec<bool> = Vec::new();
    let mut i: usize = 0;
    while i < args.len() && i + 1 < args.len()
        decreases args@.len() - i,
    {
        let verdict = match (args[i], args[i + 1]) {
            (Expression::Value(Value::Float64(a)), Expression::Value(Value::Float64(b))) => float_verdict(op, *a, *b, fu),
            _ => false,
        };
        answers.push(verdict);
        i = i + 1;
    }
    let r = chain_decide(op, args, &answers);
    proof {
        assert(r == chain_with(op, derefs(args@), 0, answers@));
    }
    r
}

/// Applies native `op` to `args`: exactly as [`native`] says where the
/// arguments decide, and with the float unit `fu` computing floats and
/// judging pairs of floats otherwise.
pub fn apply_native<F: Floats>(op: NativeOp, args: &List<Expression>, fu: &F) -> (r: Result<Expression, EvalError>)
    ensures
        native_allows(op, args@, r),
{
    let v = args.iter();
    proof {
        assert(v@.map_values(|x: &Expression| *x) == args@);
    }
    match op {
        NativeOp::Begin => {
            if v.len() == 0 {
                Ok(Expression::Value(Value::Nil))
            } else {
                Ok(v[v.len() - 1].copy())
            }
        },
        NativeOp::List => {
            proof {
                List::lemma_from_seq_view(*args);
            }
            Ok(Expression::List(Box::new(copy_list(args))))
        },
        NativeOp::Pow => pow_exec(&v, fu),
        NativeOp::Sum | NativeOp::Subtract | NativeOp::Multiply | NativeOp::Divide => arith_exec(op, &v, fu),
        _ => if v.len() < 2 {
            Err(EvalError::TooFewArguments)
        } else {
            let r = chain_exec(op, &v, fu);
            proof {
                assert(derefs(v@) == args@);
                let answers = choose|answers: Seq<bool>| r == #[trigger] chain_with(op, derefs(v@), 0, answers);
                assert(r == chain_with(op, args@, 0, answers));
                lemma_chain_exact(op, args@, 0, answers);
            }
            r
        },
    }
}

} // verus!
