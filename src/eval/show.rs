use crate::data::list::List;
use crate::eval::eval::native_name;
use crate::eval::native::Floats;
use crate::eval::types::{Expression, NativeOp, Value};
use crate::read::text::push_char;
use vstd::prelude::*;
use vstd::string::StringExecFns;

verus! {

pub open spec fn digit_char(d: nat) -> char {
    if d == 0 {
        '0'
    } else if d == 1 {
        '1'
    } else if d == 2 {
        '2'
    } else if d == 3 {
        '3'
    } else if d == 4 {
        '4'
    } else if d == 5 {
        '5'
    } else if d == 6 {
        '6'
    } else if d == 7 {
        '7'
    } else if d == 8 {
        '8'
    } else {
        '9'
    }
}

/// The decimal digits of `n`, most significant first.
pub open spec fn digits(n: nat) -> Seq<char>
    decreases n,
{
    if n < 10 {
        seq![digit_char(n)]
    } else {
        digits(n / 10) + seq![digit_char(n % 10)]
    }
}

/// `i` in decimal, with a minus sign when negative.
pub open spec fn decimal(i: int) -> Seq<char> {
    if i < 0 {
        seq!['-'] + digits((-i) as nat)
    } else {
        digits(i as nat)
    }
}

/// `t` with a backslash before each `"`.
pub open spec fn escaped(t: Seq<char>) -> Seq<char>
    decreases t.len(),
{
    if t.len() == 0 {
        Seq::empty()
    } else {
        (if t[0] == '"' {
            seq!['\\', t[0]]
        } else {
            seq![t[0]]
        }) + escaped(t.drop_first())
    }
}

/// How many floats `e` holds, in the order they are written.
pub open spec fn floats(e: Expression) -> nat
    decreases e,
{
    match e {
        Expression::Value(Value::Float64(_)) => 1,
        Expression::Value(Value::Lambda { env: _, args, body }) => items_floats(*args) + items_floats(*body),
        Expression::Value(Value::Macro { args, body }) => items_floats(*args) + items_floats(*body),
        Expression::List(l) => items_floats(*l),
        _ => 0,
    }
}

pub open spec fn items_floats(l: List<Expression>) -> nat
    decreases l,
{
    match l {
        List::Empty => 0,
        List::Normal { car, cdr } => floats(car) + items_floats(*cdr),
    }
}

/// How a value is written, with `texts` the float unit's texts for its
/// floats in order: integers in decimal, strings quoted, lists in
/// parentheses, closures as the form that made them.
pub open spec fn show_with(e: Expression, texts: Seq<Seq<char>>) -> Seq<char>
    decreases e,
{
    match e {
        Expression::Value(v) => match v {
            Value::Int64(i) => decimal(i as int),
            Value::Float64(_) => if texts.len() > 0 {
                texts[0]
            } else {
                Seq::empty()
            },
            Value::String(s) => seq!['"'] + escaped(s@) + seq!['"'],
            Value::Bool(b) => if b {
                "true"@
            } else {
                "false"@
            },
            Value::Nil => "Nil"@,
            Value::NativeCall(op) => native_name(op),
            Value::Lambda { env: _, args, body } => "(lambda "@ + seq!['('] + items_with(*args, texts.take(items_floats(*args) as int))
                + seq![')'] + body_with(*body, texts.skip(items_floats(*args) as int)) + seq![')'],
            Value::Macro { args, body } => "(macro "@ + seq!['('] + items_with(*args, texts.take(items_floats(*args) as int))
                + seq![')'] + body_with(*body, texts.skip(items_floats(*args) as int)) + seq![')'],
            Value::Recur { .. } => "recur"@,
        },
        Expression::List(l) => seq!['('] + items_with(*l, texts) + seq![')'],
        Expression::Symbol(n) => n@,
        Expression::Dot => seq!['.'],
    }
}

/// The items written one after another, separated by spaces.
pub open spec fn items_with(l: List<Expression>, texts: Seq<Seq<char>>) -> Seq<char>
    decreases l,
{
    match l {
        List::Empty => Seq::empty(),
        List::Normal { car, cdr } => match *cdr {
            List::Empty => show_with(car, texts),
            _ => show_with(car, texts.take(floats(car) as int)) + seq![' '] + items_with(*cdr, texts.skip(floats(car) as int)),
        },
    }
}

/// Each item written after a space.
pub open spec fn body_with(l: List<Expression>, texts: Seq<Seq<char>>) -> Seq<char>
    decreases l,
{
    match l {
        List::Empty => Seq::empty(),
        List::Normal { car, cdr } => seq![' '] + show_with(car, texts.take(floats(car) as int)) + body_with(
            *cdr,
            texts.skip(floats(car) as int),
        ),
    }
}

/// How a value without floats is written.
pub open spec fn show(e: Expression) -> Seq<char> {
    show_with(e, Seq::empty())
}

fn digit_char_exec(d: u64) -> (r: char)
    requires
        d < 10,
    ensures
        r == digit_char(d as nat),
{
    if d == 0 {
        '0'
    } else if d == 1 {
        '1'
    } else if d == 2 {
        '2'
    } else if d == 3 {
        '3'
    } else if d == 4 {
        '4'
    } else if d == 5 {
        '5'
    } else if d == 6 {
        '6'
    } else if d == 7 {
        '7'
    } else if d == 8 {
        '8'
    } else {
        '9'
    }
}

fn write_digits(out: &mut String, n: u64)
    ensures
        final(out)@ == old(out)@ + digits(n as nat),
    decreases n,
{
    if n >= 10 {
        write_digits(out, n / 10);
    }
    push_char(out, digit_char_exec(n % 10));
    proof {
        if n >= 10 {
            assert(old(out)@ + digits(n as nat) =~= old(out)@ + digits((n / 10) as nat) + seq![digit_char((n % 10) as nat)]);
        } else {
            assert(n % 10 == n);
        }
    }
}

fn write_decimal(out: &mut String, i: i64)
    ensures
        final(out)@ == old(out)@ + decimal(i as int),
{
    if i < 0 {
        push_char(out, '-');
        let m: u64 = (-(i as i128)) as u64;
        write_digits(out, m);
        proof {
            assert(final(out)@ =~= old(out)@ + decimal(i as int));
        }
    } else {
        write_digits(out, i as u64);
    }
}

fn write_escaped(out: &mut String, s: &String)
    ensures
        final(out)@ == old(out)@ + escaped(s@),
{
    let n = s.as_str().unicode_len();
    let mut i: usize = 0;
    proof {
        assert(s@.subrange(0, n as int) =~= s@);
    }
    while i < n
        invariant
            n == s@.len(),
            i <= n,
            out@ + escaped(s@.subrange(i as int, n as int)) == old(out)@ + escaped(s@),
        decreases n - i,
    {
        let c = s.as_str().get_char(i);
        let ghost before = out@;
        if c == '"' {
            push_char(out, '\\');
        }
        push_char(out, c);
        proof {
            let rest = s@.subrange(i as int, n as int);
            assert(rest.drop_first() =~= s@.subrange(i + 1, n as int));
            assert(rest[0] == c);
            if c == '"' {
                assert(out@ =~= before + seq!['\\', c]);
            } else {
                assert(out@ =~= before + seq![c]);
            }
            assert(out@ + escaped(s@.subrange(i + 1, n as int)) =~= before + escaped(rest));
        }
        i = i + 1;
    }
    proof {
        assert(s@.subrange(n as int, n as int) =~= Seq::<char>::empty());
    }
}

fn write_native(out: &mut String, op: NativeOp)
    ensures
        final(out)@ == old(out)@ + native_name(op),
{
    let name = match op {
        NativeOp::Sum => "+",
        NativeOp::Subtract => "-",
        NativeOp::Multiply => "*",
        NativeOp::Divide => "/",
        NativeOp::Pow => "pow",
        NativeOp::Eq => "=",
        NativeOp::Ne => "!=",
        NativeOp::Gt => ">",
        NativeOp::Lt => "<",
        NativeOp::Ge => ">=",
        NativeOp::Le => "<=",
        NativeOp::Begin => "begin",
        NativeOp::List => "list",
    };
    out.append(name);
}

/// Writes `e` at the end of `out`, as [`show_with`] says for the texts the
/// float unit gave for its floats, which it returns.
pub fn write_expr<F: Floats>(out: &mut String, e: &Expression, fu: &F) -> (texts: Ghost<Seq<Seq<char>>>)
    ensures
        final(out)@ == old(out)@ + show_with(*e, texts@),
        texts@.len() == floats(*e),
    decreases e,
{
    match e {
        Expression::Value(v) => match v {
            Value::Int64(i) => {
                write_decimal(out, *i);
                let ghost g = Seq::empty();
                Ghost(g)
            },
            Value::Float64(bits) => {
                let text = fu.show(*bits);
                out.append(text.as_str());
                let ghost g = seq![text@];
                Ghost(g)
            },
            Value::String(s) => {
                push_char(out, '"');
                write_escaped(out, s);
                push_char(out, '"');
                proof {
                    assert(final(out)@ =~= old(out)@ + show_with(*e, Seq::empty()));
                }
                let ghost g = Seq::empty();
                Ghost(g)
            },
            Value::Bool(b) => {
                if *b {
                    out.append("true");
                } else {
                    out.append("false");
                }
                let ghost g = Seq::empty();
                Ghost(g)
            },
            Value::Nil => {
                out.append("Nil");
                let ghost g = Seq::empty();
                Ghost(g)
            },
            Value::NativeCall(op) => {
                write_native(out, *op);
                let ghost g = Seq::empty();
                Ghost(g)
            },
            Value::Lambda { env: _, args, body } => {
                out.append("(lambda ");
                push_char(out, '(');
                let ta = write_items(out, args, fu);
                push_char(out, ')');
                let tb = write_body(out, body, fu);
                push_char(out, ')');
                proof {
                    assert((ta@ + tb@).take(ta@.len() as int) =~= ta@);
                    assert((ta@ + tb@).skip(ta@.len() as int) =~= tb@);
                    assert(final(out)@ =~= old(out)@ + show_with(*e, ta@ + tb@));
                }
                let ghost g = ta@ + tb@;
                Ghost(g)
            },
            Value::Macro { args, body } => {
                out.append("(macro ");
                push_char(out, '(');
                let ta = write_items(out, args, fu);
                push_char(out, ')');
                let tb = write_body(out, body, fu);
                push_char(out, ')');
                proof {
                    assert((ta@ + tb@).take(ta@.len() as int) =~= ta@);
                    assert((ta@ + tb@).skip(ta@.len() as int) =~= tb@);
                    assert(final(out)@ =~= old(out)@ + show_with(*e, ta@ + tb@));
                }
                let ghost g = ta@ + tb@;
                Ghost(g)
            },
            Value::Recur { .. } => {
                out.append("recur");
                let ghost g = Seq::empty();
                Ghost(g)
            },
        },
        Expression::List(l) => {
            push_char(out, '(');
            let t = write_items(out, l, fu);
            push_char(out, ')');
            proof {
                assert(final(out)@ =~= old(out)@ + show_with(*e, t@));
            }
            t
        },
        Expression::Symbol(n) => {
            out.append(n.as_str());
            let ghost g = Seq::empty();
            Ghost(g)
        },
        Expression::Dot => {
            push_char(out, '.');
            let ghost g = Seq::empty();
            Ghost(g)
        },
    }
}

/// Writes the items of `l` separated by spaces, as [`items_with`] says for
/// the texts the float unit gave, which it returns.
pub fn write_items<F: Floats>(out: &mut String, l: &List<Expression>, fu: &F) -> (texts: Ghost<Seq<Seq<char>>>)
    ensures
        final(out)@ == old(out)@ + items_with(*l, texts@),
        texts@.len() == items_floats(*l),
    decreases l,
{
    match l {
        List::Empty => {
            proof {
                assert(old(out)@ + items_with(*l, Seq::empty()) =~= old(out)@);
            }
            let ghost g = Seq::empty();
            Ghost(g)
        },
        List::Normal { car, cdr } => {
            let t1 = write_expr(out, car, fu);
            if !cdr.is_empty() {
                push_char(out, ' ');
                let t2 = write_items(out, cdr, fu);
                proof {
                    assert((t1@ + t2@).take(t1@.len() as int) =~= t1@);
                    assert((t1@ + t2@).skip(t1@.len() as int) =~= t2@);
                    assert(final(out)@ =~= old(out)@ + items_with(*l, t1@ + t2@));
                }
                let ghost g = t1@ + t2@;
                Ghost(g)
            } else {
                proof {
                    assert(items_floats(**cdr) == 0);
                }
                t1
            }
        },
    }
}

fn write_body<F: Floats>(out: &mut String, l: &List<Expression>, fu: &F) -> (texts: Ghost<Seq<Seq<char>>>)
    ensures
        final(out)@ == old(out)@ + body_with(*l, texts@),
        texts@.len() == items_floats(*l),
    decreases l,
{
    match l {
        List::Empty => {
            proof {
                assert(old(out)@ + body_with(*l, Seq::empty()) =~= old(out)@);
            }
            let ghost g = Seq::empty();
            Ghost(g)
        },
        List::Normal { car, cdr } => {
            push_char(out, ' ');
            let t1 = write_expr(out, car, fu);
            let t2 = write_body(out, cdr, fu);
            proof {
                assert((t1@ + t2@).take(t1@.len() as int) =~= t1@);
                assert((t1@ + t2@).skip(t1@.len() as int) =~= t2@);
                assert(final(out)@ =~= old(out)@ + body_with(*l, t1@ + t2@));
            }
            let ghost g = t1@ + t2@;
            Ghost(g)
        },
    }
}

/// `e` written out, as [`show_with`] says for the texts the float unit gave
/// for its floats.
pub fn to_text<F: Floats>(e: &Expression, fu: &F) -> (r: String)
    ensures
        exists|texts: Seq<Seq<char>>| texts.len() == floats(*e) && r@ == #[trigger] show_with(*e, texts),
{
    let mut out = String::new();
    let t = write_expr(&mut out, e, fu);
    proof {
        assert(out@ =~= Seq::<char>::empty() + out@);
        assert(out@ == show_with(*e, t@));
    }
    out
}

} // verus!
