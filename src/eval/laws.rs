use crate::data::list::List;
use crate::eval::bind::{bind, bind_list};
use crate::eval::env::{local_in, Scopes};
use crate::eval::eval::{
    apply, begin_value, binding_frame, cond_step, eval_one, settles, Answers, eval_all, fail, frame, interleave, matches_outcome, nil, push_frame, root_scopes,
    run, start, step, truncate, Frame, Outcome, State, Transition,
};
use crate::eval::native::{native, NativeOutcome};
use crate::eval::types::{EvalError, Expression, NativeOp, Value};
use crate::eval::show::{digit_char, digits, show};
use crate::read::parser::parse;
use crate::read::text::{all_digits, digit_value, digits_value, int_literal, is_digit};
use crate::read::tokenizer::{atom_end, classify, ends_atom, fits, lex_from, AtomClass, Lexeme, Token};
use vstd::prelude::*;

verus! {

/// The pattern `(a b . rest)`.
pub open spec fn rest_pattern(a: String, b: String, rest: String) -> List<Expression> {
    List::Normal {
        car: Expression::Symbol(a),
        cdr: Box::new(List::Normal {
            car: Expression::Symbol(b),
            cdr: Box::new(List::Normal {
                car: Expression::Dot,
                cdr: Box::new(List::Normal { car: Expression::Symbol(rest), cdr: Box::new(List::Empty) }),
            }),
        }),
    }
}

/// Binding `(a b . rest)` to a list of two or more values binds `a` and `b`
/// to the first two and `rest` to the list of the others; a shorter list is
/// an error for want of values, which leaves `rest` as it was.
pub proof fn law_rest_destructuring(envs: Scopes, e: usize, a: String, b: String, rest: String, vs: List<Expression>)
    requires
        a@ != b@,
        a@ != rest@,
        b@ != rest@,
    ensures
        vs@.len() >= 2 ==> {
            &&& bind(envs, e, Expression::List(Box::new(rest_pattern(a, b, rest))), Expression::List(Box::new(vs))) is Ok
            &&& bind(envs, e, Expression::List(Box::new(rest_pattern(a, b, rest))), Expression::List(Box::new(vs)))->Ok_0.lookup(e, a@) == Some(vs@[0])
            &&& bind(envs, e, Expression::List(Box::new(rest_pattern(a, b, rest))), Expression::List(Box::new(vs)))->Ok_0.lookup(e, b@) == Some(vs@[1])
            &&& bind(envs, e, Expression::List(Box::new(rest_pattern(a, b, rest))), Expression::List(Box::new(vs)))->Ok_0.lookup(e, rest@)
                == Some(Expression::List(Box::new(List::from_seq(vs@.subrange(2, vs@.len() as int)))))
        },
        vs@.len() < 2 ==> {
            &&& bind(envs, e, Expression::List(Box::new(rest_pattern(a, b, rest))), Expression::List(Box::new(vs))) matches Err(
                (x, n),
            )
            &&& x == EvalError::NotEnoughValues
            &&& n.lookup(e, rest@) == envs.lookup(e, rest@)
        },
{
    let pat = rest_pattern(a, b, rest);
    match vs {
        List::Empty => {},
        List::Normal { car: v0, cdr: c1 } => {
            match *c1 {
                List::Empty => {
                    assert(c1@ == Seq::<Expression>::empty());
                    assert(vs@.len() == 1);
                    let n = envs.with(e, a@, v0);
                    reveal_with_fuel(bind_list, 3);
                    assert forall|x: usize| #[trigger] local_in(n.bindings, x, rest@) == local_in(envs.bindings, x, rest@) by {
                        assert(n.bindings.drop_first() =~= envs.bindings);
                    }
                    lemma_lookup_same(n, envs, e, rest@);
                },
                List::Normal { car: v1, cdr: c2 } => {
                    assert(vs@ == seq![v0] + c1@);
                    assert(c1@ == seq![v1] + c2@);
                    assert(vs@ == seq![v0] + (seq![v1] + c2@));
                    reveal_with_fuel(bind_list, 5);
                    reveal_with_fuel(bind, 3);
                    assert(vs@.subrange(2, vs@.len() as int) =~= c2@);
                    List::lemma_from_seq_view(*c2);
                    let e1 = envs.with(e, a@, v0);
                    let e2 = e1.with(e, b@, v1);
                    let e3 = e2.with(e, rest@, Expression::List(c2));
                    let tail1 = List::Normal {
                        car: Expression::Symbol(b),
                        cdr: Box::new(List::Normal {
                            car: Expression::Dot,
                            cdr: Box::new(List::Normal { car: Expression::Symbol(rest), cdr: Box::new(List::Empty) }),
                        }),
                    };
                    let tail2 = List::Normal {
                        car: Expression::Dot,
                        cdr: Box::new(List::Normal { car: Expression::Symbol(rest), cdr: Box::new(List::Empty) }),
                    };
                    assert(bind_list(e2, e, tail2, *c2) == Ok::<Scopes, (EvalError, Scopes)>(e3));
                    assert(bind_list(e1, e, tail1, *c1) == bind_list(e2, e, tail2, *c2));
                    assert(bind_list(envs, e, pat, vs) == bind_list(e1, e, tail1, *c1));
                    let n = bind(envs, e, Expression::List(Box::new(pat)), Expression::List(Box::new(vs)))->Ok_0;
                    assert(n == e3);
                    assert(n.bindings[0] == (e, rest@, Expression::List(c2)));
                    assert(n.bindings[1] == (e, b@, v1));
                    assert(n.bindings[2] == (e, a@, v0));
                    assert(n.bindings.drop_first()[0] == (e, b@, v1));
                    assert(n.bindings.drop_first().drop_first()[0] == (e, a@, v0));
                    reveal_with_fuel(local_in, 3);
                },
            }
        },
    }
}

/// Stores with the same parents and the same bindings of `name` in every
/// scope give `name` the same value everywhere.
pub proof fn lemma_lookup_same(s1: Scopes, s2: Scopes, e: usize, name: Seq<char>)
    requires
        s1.parents == s2.parents,
        forall|x: usize| #[trigger] local_in(s1.bindings, x, name) == local_in(s2.bindings, x, name),
    ensures
        s1.lookup(e, name) == s2.lookup(e, name),
    decreases e,
{
    assert(local_in(s1.bindings, e, name) == local_in(s2.bindings, e, name));
    match s1.parent_of(e) {
        Some(p) => {
            if p < e {
                lemma_lookup_same(s1, s2, p, name);
            }
        },
        None => {},
    }
}

pub proof fn lemma_truncate_len(stack: List<crate::eval::eval::Frame>, depth: nat)
    ensures
        truncate(stack, depth)@.len() == if stack@.len() <= depth {
            stack@.len()
        } else {
            depth
        },
    decreases stack,
{
    if stack@.len() > depth {
        match stack {
            List::Empty => {},
            List::Normal { car: _, cdr } => {
                lemma_truncate_len(*cdr, depth);
            },
        }
    }
}

/// What `truncate` keeps is the bottom of the stack.
pub proof fn lemma_truncate_bottom(stack: List<crate::eval::eval::Frame>, depth: nat)
    ensures
        truncate(stack, depth)@ == stack@.subrange(stack@.len() - truncate(stack, depth)@.len(), stack@.len() as int),
    decreases stack,
{
    if stack@.len() <= depth {
        assert(stack@.subrange(0, stack@.len() as int) =~= stack@);
    } else {
        match stack {
            List::Empty => {},
            List::Normal { car: _, cdr } => {
                lemma_truncate_bottom(*cdr, depth);
                lemma_truncate_len(*cdr, depth);
                let k = truncate(stack, depth)@.len();
                assert(cdr@ == stack@.drop_first());
                assert(cdr@.subrange(cdr@.len() - k, cdr@.len() as int) =~= stack@.subrange(stack@.len() - k, stack@.len() as int));
            },
        }
    }
}

/// `recur` with as many values as the loop has patterns cuts the stack back to
/// the depth `depth` at which the loop was entered, then pushes the loop's
/// body as `(begin body...)` with a frame on top that binds the patterns to
/// the values and hands `Nil` to the body: `depth + 2` frames (fewer when the
/// stack was already shallower), whatever the number of iterations before.
/// With another number of values it fails and leaves the stack as it was.
pub proof fn law_recur_depth(
    env: usize,
    params: List<Expression>,
    body: List<Expression>,
    depth: usize,
    args: List<Expression>,
    stack: List<crate::eval::eval::Frame>,
    envs: Scopes,
    ret: Expression,
)
    ensures
        ({
            let callee = Expression::Value(Value::Recur { env, args: Box::new(params), body: Box::new(body), depth });
            let kept = truncate(stack, depth as nat);
            &&& params@.len() == args@.len() ==> apply(callee, args, stack, envs, ret) == Transition::To(
                State {
                    stack: push_frame(
                        binding_frame(interleave(params@, args@), seq![callee], env),
                        push_frame(frame(body@, seq![begin_value()], env), kept),
                    ),
                    envs,
                    ret,
                },
            )
            &&& kept@.len() == (if stack@.len() <= depth {
                stack@.len()
            } else {
                depth as nat
            })
            &&& kept@ == stack@.subrange(stack@.len() - kept@.len(), stack@.len() as int)
            &&& params@.len() != args@.len() ==> apply(callee, args, stack, envs, ret) == fail(EvalError::Arity, stack, envs, ret)
        }),
{
    lemma_truncate_len(stack, depth as nat);
    lemma_truncate_bottom(stack, depth as nat);
}

/// When a `cond` test comes back false, the body after it is dropped
/// unevaluated: the frame goes on with the remaining clauses alone, nothing is
/// pushed for the body, and the environments are untouched.
pub proof fn law_cond_false_skips(
    kw: Expression,
    body: Expression,
    more: Seq<Expression>,
    env: usize,
    stack: List<crate::eval::eval::Frame>,
    envs: Scopes,
    ret: Expression,
)
    requires
        crate::eval::eval::is_word(kw, "cond"@),
    ensures
        step(
            State {
                stack: push_frame(frame(seq![body] + more, seq![kw, Expression::Value(Value::Bool(false))], env), stack),
                envs,
                ret,
            },
        ) == Transition::To(State { stack: push_frame(frame(more, seq![kw], env), stack), envs, ret }),
{
    reveal(step);
    reveal_strlit("cond");
    reveal_strlit("def");
    let f = frame(seq![body] + more, seq![kw, Expression::Value(Value::Bool(false))], env);
    List::<Expression>::lemma_from_seq_view(f.output);
    List::<Expression>::lemma_from_seq_view(f.input);
    assert(f.output@ =~= seq![kw, Expression::Value(Value::Bool(false))]) by {
        lemma_from_seq_elems(seq![kw, Expression::Value(Value::Bool(false))]);
    }
    assert(f.input@ =~= seq![body] + more) by {
        lemma_from_seq_elems(seq![body] + more);
    }
    assert((seq![body] + more).drop_first() =~= more);
    let out = f.output@;
    let inp = f.input@;
    assert("cond"@.len() == 4);
    assert("def"@.len() == 3);
    assert(!crate::eval::eval::in_form(f, "def"@));
    assert(crate::eval::eval::in_form(f, "cond"@));
    assert(out.len() == 2);
    assert(inp.len() > 0);
    assert(List::from_seq(inp.drop_first()) == List::from_seq(more));
    assert(cond_step(f, stack, envs, ret) == Transition::To(State { stack: push_frame(frame(more, seq![out[0]], env), stack), envs, ret }));
}

/// The elements of the list made from `s` are `s`.
pub proof fn lemma_from_seq_elems<T>(s: Seq<T>)
    ensures
        List::from_seq(s)@ == s,
    decreases s.len(),
{
    if s.len() > 0 {
        lemma_from_seq_elems(s.drop_first());
        assert(s =~= seq![s[0]] + s.drop_first());
    }
}

/// Binding into scope `c` leaves the bindings of every other scope as they
/// were, and the parents too.
pub proof fn lemma_bind_stays_in_scope(envs: Scopes, c: usize, pat: Expression, val: Expression)
    ensures
        bind(envs, c, pat, val) matches Ok(n) ==> n.parents == envs.parents && forall|x: usize, name: Seq<char>|
            x != c ==> #[trigger] local_in(n.bindings, x, name) == local_in(envs.bindings, x, name),
    decreases pat,
{
    match pat {
        Expression::Symbol(s) => {
            let n = envs.with(c, s@, val);
            assert forall|x: usize, name: Seq<char>| x != c implies #[trigger] local_in(n.bindings, x, name) == local_in(envs.bindings, x, name) by {
                assert(n.bindings.drop_first() =~= envs.bindings);
            }
        },
        Expression::List(ps) => match val {
            Expression::List(vs) => lemma_bind_list_stays_in_scope(envs, c, *ps, *vs),
            _ => {},
        },
        _ => {},
    }
}

pub proof fn lemma_bind_list_stays_in_scope(envs: Scopes, c: usize, ps: List<Expression>, vs: List<Expression>)
    ensures
        bind_list(envs, c, ps, vs) matches Ok(n) ==> n.parents == envs.parents && forall|x: usize, name: Seq<char>|
            x != c ==> #[trigger] local_in(n.bindings, x, name) == local_in(envs.bindings, x, name),
    decreases ps,
{
    match ps {
        List::Empty => {},
        List::Normal { car, cdr } => match car {
            Expression::Dot => match *cdr {
                List::Normal { car: rest, cdr: _ } => {
                    lemma_bind_stays_in_scope(envs, c, rest, Expression::List(Box::new(vs)));
                },
                List::Empty => {},
            },
            _ => match vs {
                List::Empty => {},
                List::Normal { car: v, cdr: more } => {
                    lemma_bind_stays_in_scope(envs, c, car, v);
                    match bind(envs, c, car, v) {
                        Ok(envs2) => {
                            lemma_bind_list_stays_in_scope(envs2, c, *cdr, *more);
                        },
                        Err(_) => {},
                    }
                },
            },
        },
    }
}

/// Applying a closure made in environment `e` binds nothing in `e`: every
/// name keeps what it had there, and the call runs in a new child of `e`.
pub proof fn law_closure_binds_in_child(
    e: usize,
    params: List<Expression>,
    body: List<Expression>,
    args: List<Expression>,
    stack: List<crate::eval::eval::Frame>,
    envs: Scopes,
    ret: Expression,
)
    requires
        e < envs.parents.len(),
    ensures
        apply(Expression::Value(Value::Lambda { env: e, args: Box::new(params), body: Box::new(body) }), args, stack, envs, ret)
            matches Transition::To(s) ==> {
            &&& forall|name: Seq<char>| #[trigger] local_in(s.envs.bindings, e, name) == local_in(envs.bindings, e, name)
            &&& s.stack@.len() == stack@.len() + 1
            &&& s.envs.parent_of(s.stack@[0].env) == Some(e)
            &&& s.stack@[0].env == envs.parents.len()
        },
{
    if envs.parents.len() < usize::MAX {
        let c = envs.parents.len() as usize;
        let sp = envs.spawn(e);
        lemma_bind_list_stays_in_scope(sp, c, params, args);
        match bind_list(sp, c, params, args) {
            Ok(n) => {
                assert forall|name: Seq<char>| #[trigger] local_in(n.bindings, e, name) == local_in(envs.bindings, e, name) by {
                    assert(local_in(n.bindings, e, name) == local_in(sp.bindings, e, name));
                }
            },
            Err(_) => {},
        }
    }
}

proof fn lemma_digits(m: nat)
    ensures
        digits(m).len() >= 1,
        all_digits(digits(m)),
        digits_value(digits(m)) == m,
    decreases m,
{
    if m >= 10 {
        lemma_digits(m / 10);
        let s = digits(m / 10);
        let c = digit_char(m % 10);
        assert((s + seq![c]).drop_last() =~= s);
        assert(digits(m).last() == c);
        assert forall|k: int| 0 <= k < digits(m).len() implies is_digit(#[trigger] digits(m)[k]) by {
            if k < s.len() {
                assert(digits(m)[k] == s[k]);
            }
        }
        assert(digit_value(c) == m % 10);
        assert(digits_value(digits(m)) == digits_value(s) * 10 + digit_value(c));
        assert((m / 10) * 10 + m % 10 == m);
    } else {
        let c = digit_char(m);
        assert(seq![c].drop_last() =~= Seq::<char>::empty());
        assert(digit_value(c) == m);
        assert(digits_value(digits(m)) == digits_value(Seq::<char>::empty()) * 10 + digit_value(c));
    }
}

proof fn lemma_atom_to_end(s: Seq<char>, i: int)
    requires
        0 <= i <= s.len(),
        forall|k: int| 0 <= k < s.len() ==> !ends_atom(#[trigger] s[k]),
    ensures
        atom_end(s, i) == s.len(),
    decreases s.len() - i,
{
    if i < s.len() {
        lemma_atom_to_end(s, i + 1);
    }
}

/// The lexemes of text made of one bare atom.
proof fn lemma_single_atom(s: Seq<char>)
    requires
        s.len() >= 1,
        forall|k: int| 0 <= k < s.len() ==> !ends_atom(#[trigger] s[k]),
        s[0] != ';',
    ensures
        lex_from(s, 0) == Ok::<Seq<Lexeme>, crate::read::tokenizer::LexError>(seq![Lexeme::Atom(s)]),
{
    assert(!ends_atom(s[0]));
    lemma_atom_to_end(s, 0);
    assert(s.subrange(0, s.len() as int) =~= s);
    assert(lex_from(s, s.len() as int) == Ok::<Seq<Lexeme>, crate::read::tokenizer::LexError>(Seq::empty()));
    assert(crate::read::tokenizer::mark(s[0]) is None);
    assert(lex_from(s, 0) == crate::read::tokenizer::prepend(seq![Lexeme::Atom(s.subrange(0, s.len() as int))], lex_from(s, s.len() as int)));
    assert(seq![Lexeme::Atom(s)] + Seq::<Lexeme>::empty() =~= seq![Lexeme::Atom(s)]);
}

/// Integers, booleans and `Nil` are written as text that reads back as the
/// same value: the text is one bare atom, the lexer classifies it as that
/// integer, boolean or `Nil`, and the token it yields parses to the value.
pub proof fn law_atom_round_trip(v: Expression)
    requires
        v matches Expression::Value(Value::Int64(_)) || v matches Expression::Value(Value::Bool(_)) || v
            == Expression::Value(Value::Nil),
    ensures
        lex_from(show(v), 0) == Ok::<Seq<Lexeme>, crate::read::tokenizer::LexError>(seq![Lexeme::Atom(show(v))]),
        forall|t: Token| fits(t, Lexeme::Atom(show(v))) ==> parse(seq![t]) == Ok::<Seq<Expression>, crate::read::parser::ParseError>(seq![v]),
{
    let s = show(v);
    match v {
        Expression::Value(Value::Int64(n)) => {
            let m: nat = if n < 0 {
                (-n) as nat
            } else {
                n as nat
            };
            lemma_digits(m);
            let d = digits(m);
            assert forall|k: int| 0 <= k < d.len() implies !ends_atom(#[trigger] d[k]) by {
                assert(is_digit(d[k]));
            }
            if n < 0 {
                assert(s == seq!['-'] + d);
                assert(s.drop_first() =~= d);
                assert forall|k: int| 0 <= k < s.len() implies !ends_atom(#[trigger] s[k]) by {
                    if k > 0 {
                        assert(s[k] == d[k - 1]);
                    }
                }
                assert(int_literal(s) == Some(n));
            } else {
                assert(s == d);
                assert(is_digit(d[0]));
                assert(int_literal(s) == Some(n));
            }
            assert(is_digit(d[0]));
            lemma_single_atom(s);
            assert(s != seq!['.']) by {
                if s.len() == 1 {
                    assert(s[0] != '.');
                }
            }
            assert(s != seq!['t', 'r', 'u', 'e']) by {
                if s.len() == 4 {
                    assert(s[0] != 't');
                }
            }
            assert(s != seq!['f', 'a', 'l', 's', 'e']) by {
                if s.len() == 5 {
                    assert(s[0] != 'f');
                }
            }
            assert(s != seq!['N', 'i', 'l']) by {
                if s.len() == 3 {
                    assert(s[0] != 'N');
                }
            }
            assert(classify(s) == AtomClass::Int(n));
        },
        Expression::Value(Value::Bool(b)) => {
            reveal_strlit("true");
            reveal_strlit("false");
            if b {
                assert(s =~= seq!['t', 'r', 'u', 'e']);
            } else {
                assert(s =~= seq!['f', 'a', 'l', 's', 'e']);
            }
            lemma_single_atom(s);
            assert(classify(s) == AtomClass::Bool(b));
        },
        Expression::Value(Value::Nil) => {
            reveal_strlit("Nil");
            assert(s =~= seq!['N', 'i', 'l']);
            lemma_single_atom(s);
            assert(classify(s) == AtomClass::Nil);
        },
        _ => {},
    }
    assert forall|t: Token| fits(t, Lexeme::Atom(s)) implies parse(seq![t]) == Ok::<Seq<Expression>, crate::read::parser::ParseError>(seq![v]) by {
        let ts = seq![t];
        let o = crate::read::parser::add_inner(seq![Seq::<Expression>::empty()], v);
        assert(o =~= seq![seq![v]]);
        assert(crate::read::parser::parse_from(ts, 1, o) == Ok::<Seq<Expression>, crate::read::parser::ParseError>(seq![v]));
    }
}

pub open spec fn list_callee() -> Expression {
    Expression::Value(Value::NativeCall(NativeOp::List))
}

pub open spec fn is_atom_value(e: Expression) -> bool {
    e is Value
}

/// A `list` application whose callee and first values are in: the remaining
/// atoms are taken in order and the list of all of them is the result.
proof fn lemma_list_rest(done: Seq<Expression>, rest: Seq<Expression>, env: usize, envs: Scopes, fuel: nat, answers: Answers)
    requires
        forall|k: int| 0 <= k < rest.len() ==> is_atom_value(#[trigger] rest[k]),
        fuel >= rest.len() + 1,
    ensures
        run(State { stack: push_frame(frame(rest, seq![list_callee()] + done, env), List::Empty), envs, ret: nil() }, fuel, answers)
            == Outcome::Value(Expression::List(Box::new(List::from_seq(done + rest))), envs),
    decreases rest.len(),
{
    reveal(step);
    let out = seq![list_callee()] + done;
    let f = frame(rest, out, env);
    let s = State { stack: push_frame(f, List::Empty), envs, ret: nil() };
    lemma_from_seq_elems(out);
    assert(!crate::eval::eval::in_form(f, "def"@));
    assert(!crate::eval::eval::in_form(f, "cond"@));
    assert(!crate::eval::eval::head_is(f.output, "loop"@));
    if rest.len() == 0 {
        assert(f.input == List::<Expression>::Empty);
        assert(out.drop_first() =~= done);
        lemma_from_seq_elems(done);
        assert(f.output == List::Normal { car: list_callee(), cdr: Box::new(List::from_seq(done)) });
        assert(done + rest =~= done);
        let v = Expression::List(Box::new(List::from_seq(done)));
        assert(native(NativeOp::List, List::from_seq(done)@) == NativeOutcome::Done(Ok(v)));
        assert(step(s) == Transition::To(State { stack: List::Empty, envs, ret: v }));
        assert(run(State { stack: List::Empty, envs, ret: v }, (fuel - 1) as nat, answers) == Outcome::Value(v, envs));
    } else {
        let e = rest[0];
        assert(is_atom_value(e));
        let f2 = frame(rest.drop_first(), out.push(e), env);
        assert(out.push(e) =~= seq![list_callee()] + done.push(e));
        assert(List::from_seq(f.output@.push(e)) == f2.output);
        assert(step(s) == Transition::To(State { stack: push_frame(f2, List::Empty), envs, ret: nil() }));
        assert forall|k: int| 0 <= k < rest.drop_first().len() implies is_atom_value(#[trigger] rest.drop_first()[k]) by {
            assert(rest.drop_first()[k] == rest[k + 1]);
        }
        lemma_list_rest(done.push(e), rest.drop_first(), env, envs, (fuel - 1) as nat, answers);
        assert(done.push(e) + rest.drop_first() =~= done + rest);
    }
}

/// `(list e1 ... en)`, where `list` names the native and each `ei` is an
/// atom, evaluates to the list `(e1 ... en)`: the same values, in order.
pub proof fn law_list_evaluates_in_order(name: String, items: Seq<Expression>, env: usize, envs: Scopes, fuel: nat, answers: Answers)
    requires
        name@ == "list"@,
        envs.lookup(env, "list"@) == Some(list_callee()),
        forall|k: int| 0 <= k < items.len() ==> is_atom_value(#[trigger] items[k]),
        fuel >= items.len() + 2,
    ensures
        run(start(List::from_seq(seq![Expression::Symbol(name)] + items), env, envs), fuel, answers) == Outcome::Value(
            Expression::List(Box::new(List::from_seq(items))),
            envs,
        ),
{
    reveal(step);
    reveal_strlit("list");
    reveal_strlit("def");
    reveal_strlit("cond");
    reveal_strlit("lambda");
    reveal_strlit("macro");
    reveal_strlit("quote");
    reveal_strlit("loop");
    assert("list"@.len() == 4);
    assert("def"@.len() == 3);
    assert("cond"@[0] != "list"@[0]);
    assert("lambda"@.len() == 6);
    assert("macro"@.len() == 5);
    assert("quote"@.len() == 5);
    assert("loop"@[1] != "list"@[1]);
    let input = seq![Expression::Symbol(name)] + items;
    let l = List::from_seq(input);
    let s0 = start(l, env, envs);
    let f = Frame { input: l, output: List::Empty, env, binds: false };
    lemma_from_seq_elems(input);
    assert(input.drop_first() =~= items);
    assert(!crate::eval::eval::in_form(f, "def"@));
    assert(!crate::eval::eval::in_form(f, "cond"@));
    assert(!crate::eval::eval::starts(f, "lambda"@));
    assert(!crate::eval::eval::starts(f, "macro"@));
    assert(!crate::eval::eval::starts(f, "quote"@));
    assert(!crate::eval::eval::starts(f, "loop"@));
    assert(!crate::eval::eval::head_is(f.output, "loop"@));
    let f1 = frame(items, seq![list_callee()], env);
    assert(Seq::<Expression>::empty().push(list_callee()) =~= seq![list_callee()]);
    assert(List::<Expression>::Empty@ == Seq::<Expression>::empty());
    assert(step(s0) == Transition::To(State { stack: push_frame(f1, List::Empty), envs, ret: nil() }));
    assert(seq![list_callee()] + Seq::<Expression>::empty() =~= seq![list_callee()]);
    lemma_list_rest(Seq::empty(), items, env, envs, (fuel - 1) as nat, answers);
    assert(Seq::<Expression>::empty() + items =~= items);
}

/// `list` returns its arguments, in order.
pub proof fn law_list_identity(args: List<Expression>)
    ensures
        native(NativeOp::List, args@) == NativeOutcome::Done(Ok(Expression::List(Box::new(args)))),
{
    List::lemma_from_seq_view(args);
}

/// `(cond true x skipped)` and `(cond false skipped x)` with `x` an atom run
/// to `x` and leave every environment as it was: the skipped expression,
/// whatever it holds (a `def` included), is never evaluated.
#[verifier::rlimit(50)]
pub proof fn law_cond_run_skips(
    kw: String,
    test: bool,
    x: Expression,
    skipped: Expression,
    env: usize,
    envs: Scopes,
    fuel: nat,
    answers: Answers,
)
    requires
        kw@ == "cond"@,
        x is Value,
        fuel >= 7,
    ensures
        run(
            crate::eval::eval::start(
                List::from_seq(
                    if test {
                        seq![Expression::Symbol(kw), Expression::Value(Value::Bool(true)), x, skipped]
                    } else {
                        seq![Expression::Symbol(kw), Expression::Value(Value::Bool(false)), skipped, x]
                    },
                ),
                env,
                envs,
            ),
            fuel,
            answers,
        ) == Outcome::Value(x, envs),
{
    let k = Expression::Symbol(kw);
    let b = Expression::Value(Value::Bool(test));
    let first = if test {
        x
    } else {
        skipped
    };
    let second = if test {
        skipped
    } else {
        x
    };
    let input = seq![k, b, first, second];
    assert(input =~= (if test {
        seq![Expression::Symbol(kw), Expression::Value(Value::Bool(true)), x, skipped]
    } else {
        seq![Expression::Symbol(kw), Expression::Value(Value::Bool(false)), skipped, x]
    }));
    let s0 = crate::eval::eval::start(List::from_seq(input), env, envs);
    let f1 = frame(seq![b, first, second], seq![k], env);
    let s1 = State { stack: push_frame(f1, List::Empty), envs, ret: nil() };
    assert(step(s0) == Transition::To(s1)) by {
        reveal(step);
        reveal_strlit("cond");
        reveal_strlit("def");
        assert("cond"@.len() == 4 && "def"@.len() == 3);
        lemma_from_seq_elems(input);
        assert(input.drop_first() =~= seq![b, first, second]);
    }
    let f2 = frame(seq![first, second], seq![k, b], env);
    let s2 = State { stack: push_frame(f2, List::Empty), envs, ret: nil() };
    assert(step(s1) == Transition::To(s2)) by {
        reveal(step);
        reveal_strlit("cond");
        reveal_strlit("def");
        assert("cond"@.len() == 4 && "def"@.len() == 3);
        lemma_from_seq_elems(seq![b, first, second]);
        lemma_from_seq_elems(seq![k]);
        assert(seq![b, first, second].drop_first() =~= seq![first, second]);
        assert(seq![k].push(b) =~= seq![k, b]);
    }
    let g = frame(seq![crate::eval::eval::begin_value(), x], seq![], env);
    let sg = State { stack: push_frame(g, List::Empty), envs, ret: nil() };
    if test {
        assert(step(s2) == Transition::To(sg)) by {
            reveal(step);
            reveal_strlit("cond");
            reveal_strlit("def");
            assert("cond"@.len() == 4 && "def"@.len() == 3);
            lemma_from_seq_elems(seq![first, second]);
            lemma_from_seq_elems(seq![k, b]);
        }
        lemma_begin_atom(x, env, envs, (fuel - 3) as nat, answers);
        assert(run(s2, (fuel - 2) as nat, answers) == run(sg, (fuel - 3) as nat, answers));
    } else {
        let f3 = frame(seq![second], seq![k], env);
        let s3 = State { stack: push_frame(f3, List::Empty), envs, ret: nil() };
        assert(step(s2) == Transition::To(s3)) by {
            reveal(step);
            reveal_strlit("cond");
            reveal_strlit("def");
            assert("cond"@.len() == 4 && "def"@.len() == 3);
            lemma_from_seq_elems(seq![first, second]);
            lemma_from_seq_elems(seq![k, b]);
            assert(seq![first, second].drop_first() =~= seq![second]);
        }
        assert(step(s3) == Transition::To(sg)) by {
            reveal(step);
            reveal_strlit("cond");
            reveal_strlit("def");
            assert("cond"@.len() == 4 && "def"@.len() == 3);
            lemma_from_seq_elems(seq![second]);
            lemma_from_seq_elems(seq![k]);
        }
        lemma_begin_atom(x, env, envs, (fuel - 4) as nat, answers);
        assert(run(s3, (fuel - 3) as nat, answers) == run(sg, (fuel - 4) as nat, answers));
        assert(run(s2, (fuel - 2) as nat, answers) == run(s3, (fuel - 3) as nat, answers));
    }
    assert(run(s1, (fuel - 1) as nat, answers) == run(s2, (fuel - 2) as nat, answers));
    assert(run(s0, fuel, answers) == run(s1, (fuel - 1) as nat, answers));
}

/// `(begin x)` with `x` an atom, alone on the stack, runs to `x`.
proof fn lemma_begin_atom(x: Expression, env: usize, envs: Scopes, fuel: nat, answers: Answers)
    requires
        x is Value,
        fuel >= 3,
    ensures
        run(
            State { stack: push_frame(frame(seq![crate::eval::eval::begin_value(), x], seq![], env), List::Empty), envs, ret: nil() },
            fuel,
            answers,
        ) == Outcome::Value(x, envs),
{
    let bv = crate::eval::eval::begin_value();
    let g = frame(seq![bv, x], seq![], env);
    let sg = State { stack: push_frame(g, List::Empty), envs, ret: nil() };
    let g1 = frame(seq![x], seq![bv], env);
    let s1 = State { stack: push_frame(g1, List::Empty), envs, ret: nil() };
    assert(step(sg) == Transition::To(s1)) by {
        reveal(step);
        lemma_from_seq_elems(seq![bv, x]);
        lemma_from_seq_elems(Seq::<Expression>::empty());
        assert(seq![bv, x].drop_first() =~= seq![x]);
        assert(Seq::<Expression>::empty().push(bv) =~= seq![bv]);
    }
    let g2 = frame(Seq::empty(), seq![bv, x], env);
    let s2 = State { stack: push_frame(g2, List::Empty), envs, ret: nil() };
    assert(step(s1) == Transition::To(s2)) by {
        reveal(step);
        lemma_from_seq_elems(seq![x]);
        lemma_from_seq_elems(seq![bv]);
        assert(seq![x].drop_first() =~= Seq::<Expression>::empty());
        assert(seq![bv].push(x) =~= seq![bv, x]);
    }
    let s3 = State { stack: List::Empty, envs, ret: x };
    assert(step(s2) == Transition::To(s3)) by {
        reveal(step);
        lemma_from_seq_elems(seq![bv, x]);
        lemma_from_seq_elems(seq![x]);
        lemma_from_seq_elems(Seq::<Expression>::empty());
        assert(seq![bv, x].drop_first() =~= seq![x]);
    }
    assert(run(s3, (fuel - 3) as nat, answers) == Outcome::Value(x, envs));
    assert(run(s2, (fuel - 2) as nat, answers) == run(s3, (fuel - 3) as nat, answers));
    assert(run(s1, (fuel - 1) as nat, answers) == run(s2, (fuel - 2) as nat, answers));
    assert(run(sg, fuel, answers) == run(s1, (fuel - 1) as nat, answers));
}

/// The keywords differ from one another.
proof fn lemma_keywords()
    ensures
        "def"@ != "cond"@,
        "lambda"@ != "def"@,
        "lambda"@ != "cond"@,
{
    reveal_strlit("def");
    reveal_strlit("cond");
    reveal_strlit("lambda");
    assert("def"@.len() == 3 && "cond"@.len() == 4 && "lambda"@.len() == 6);
}

/// `((lambda (p) (def n v) n) w)` with atoms `v` and `w`, evaluated in an
/// environment `e`, runs to `v`. The call binds `p` and its body binds `n` in
/// a new child of `e` only: every name keeps what it had in `e`.
#[verifier::rlimit(100)]
pub proof fn law_closure_call_stays_local(
    kl: String,
    kd: String,
    p: String,
    n: String,
    v: Expression,
    w: Expression,
    e: usize,
    envs: Scopes,
    fuel: nat,
    answers: Answers,
)
    requires
        kl@ == "lambda"@,
        kd@ == "def"@,
        v is Value,
        w is Value,
        e < envs.parents.len() < usize::MAX,
        fuel >= 10,
    ensures
        ({
            let d = Expression::List(Box::new(List::from_seq(seq![Expression::Symbol(kd), Expression::Symbol(n), v])));
            let params = Expression::List(Box::new(List::from_seq(seq![Expression::Symbol(p)])));
            let l = Expression::List(Box::new(List::from_seq(seq![Expression::Symbol(kl), params, d, Expression::Symbol(n)])));
            let c = envs.parents.len() as usize;
            let after = envs.spawn(e).with(c, p@, w).with(c, n@, v);
            &&& run(crate::eval::eval::start(List::from_seq(seq![l, w]), e, envs), fuel, answers) == Outcome::Value(v, after)
            &&& after.parent_of(c) == Some(e)
            &&& forall|name: Seq<char>| #[trigger] local_in(after.bindings, e, name) == local_in(envs.bindings, e, name)
        }),
{
    lemma_keywords();
    let bv = crate::eval::eval::begin_value();
    let sn = Expression::Symbol(n);
    let d_items = seq![Expression::Symbol(kd), sn, v];
    let d = Expression::List(Box::new(List::from_seq(d_items)));
    let params_l = List::from_seq(seq![Expression::Symbol(p)]);
    let params = Expression::List(Box::new(params_l));
    let l_items = seq![Expression::Symbol(kl), params, d, sn];
    let l = Expression::List(Box::new(List::from_seq(l_items)));
    let c = envs.parents.len() as usize;
    let e1 = envs.spawn(e).with(c, p@, w);
    let e2 = e1.with(c, n@, v);
    let body = List::from_seq(seq![d, sn]);
    let lam = Expression::Value(Value::Lambda { env: e, args: Box::new(params_l), body: Box::new(body) });
    lemma_from_seq_elems(seq![l, w]);
    lemma_from_seq_elems(seq![w]);
    lemma_from_seq_elems(l_items);
    lemma_from_seq_elems(d_items);
    lemma_from_seq_elems(seq![d, sn]);
    lemma_from_seq_elems(seq![Expression::Symbol(p)]);
    lemma_from_seq_elems(Seq::<Expression>::empty());

    let s0 = crate::eval::eval::start(List::from_seq(seq![l, w]), e, envs);
    let f0 = frame(seq![w], seq![], e);
    let fl = frame(l_items, seq![], e);
    let s1 = State { stack: push_frame(fl, push_frame(f0, List::Empty)), envs, ret: nil() };
    assert(step(s0) == Transition::To(s1)) by {
        reveal(step);
        assert(seq![l, w].drop_first() =~= seq![w]);
    }
    let f0b = frame(seq![w], seq![lam], e);
    let s2 = State { stack: push_frame(f0b, List::Empty), envs, ret: nil() };
    assert(step(s1) == Transition::To(s2)) by {
        reveal(step);
        assert(l_items.subrange(2, 4) =~= seq![d, sn]);
        lemma_from_seq_elems(seq![lam]);
        assert(Seq::<Expression>::empty().push(lam) =~= seq![lam]);
    }
    let f0c = frame(seq![], seq![lam, w], e);
    let s3 = State { stack: push_frame(f0c, List::Empty), envs, ret: nil() };
    assert(step(s2) == Transition::To(s3)) by {
        reveal(step);
        lemma_from_seq_elems(seq![lam]);
        assert(seq![lam].push(w) =~= seq![lam, w]);
    }
    let fb = frame(seq![bv, d, sn], seq![], c);
    let s4 = State { stack: push_frame(fb, List::Empty), envs: e1, ret: nil() };
    assert(step(s3) == Transition::To(s4)) by {
        reveal(step);
        lemma_from_seq_elems(seq![lam, w]);
        assert(seq![lam, w].drop_first() =~= seq![w]);
        assert(seq![bv] + seq![d, sn] =~= seq![bv, d, sn]);
        let sp = envs.spawn(e);
        assert(seq![w].drop_first() =~= Seq::<Expression>::empty());
        assert(seq![Expression::Symbol(p)].drop_first() =~= Seq::<Expression>::empty());
        assert(List::from_seq(seq![w]) == List::Normal { car: w, cdr: Box::new(List::<Expression>::Empty) });
        assert(params_l == List::Normal { car: Expression::Symbol(p), cdr: Box::new(List::<Expression>::Empty) });
        reveal_with_fuel(crate::eval::bind::bind_list, 2);
        assert(crate::eval::bind::bind_list(sp, c, params_l, List::from_seq(seq![w])) == Ok::<Scopes, (EvalError, Scopes)>(e1));
    }
    let fb1 = frame(seq![d, sn], seq![bv], c);
    let s5 = State { stack: push_frame(fb1, List::Empty), envs: e1, ret: nil() };
    assert(step(s4) == Transition::To(s5)) by {
        reveal(step);
        lemma_from_seq_elems(seq![bv, d, sn]);
        assert(seq![bv, d, sn].drop_first() =~= seq![d, sn]);
        assert(Seq::<Expression>::empty().push(bv) =~= seq![bv]);
    }
    let fb2 = frame(seq![sn], seq![bv], c);
    let fd = frame(d_items, seq![], c);
    let s6 = State { stack: push_frame(fd, push_frame(fb2, List::Empty)), envs: e1, ret: nil() };
    assert(step(s5) == Transition::To(s6)) by {
        reveal(step);
        lemma_from_seq_elems(seq![sn]);
        lemma_from_seq_elems(seq![bv]);
        assert(seq![d, sn].drop_first() =~= seq![sn]);
    }
    let fd2 = frame(seq![], seq![Expression::Symbol(kd), sn, v], c);
    let s7 = State { stack: push_frame(fd2, push_frame(fb2, List::Empty)), envs: e1, ret: nil() };
    assert(step(s6) == Transition::To(s7)) by {
        reveal(step);
        assert(d_items.drop_first() =~= seq![sn, v]);
        lemma_from_seq_elems(seq![sn, v]);
        lemma_from_seq_elems(seq![Expression::Symbol(kd)]);
        assert(seq![sn, v].subrange(2, 2) =~= Seq::<Expression>::empty());
        assert(seq![Expression::Symbol(kd)].push(sn) =~= seq![Expression::Symbol(kd), sn]);
        lemma_from_seq_elems(seq![Expression::Symbol(kd), sn]);
        assert(seq![Expression::Symbol(kd), sn].push(v) =~= seq![Expression::Symbol(kd), sn, v]);
    }
    let fb3 = frame(seq![sn], seq![bv, nil()], c);
    let s8 = State { stack: push_frame(fb3, List::Empty), envs: e2, ret: nil() };
    assert(step(s7) == Transition::To(s8)) by {
        reveal(step);
        lemma_from_seq_elems(seq![Expression::Symbol(kd), sn, v]);
        lemma_from_seq_elems(seq![Expression::Symbol(kd)]);
        lemma_from_seq_elems(seq![bv]);
        assert(seq![bv].push(nil()) =~= seq![bv, nil()]);
    }
    let fb4 = frame(seq![], seq![bv, nil(), v], c);
    let s9 = State { stack: push_frame(fb4, List::Empty), envs: e2, ret: nil() };
    assert(step(s8) == Transition::To(s9)) by {
        reveal(step);
        lemma_from_seq_elems(seq![sn]);
        lemma_from_seq_elems(seq![bv, nil()]);
        assert(seq![sn].drop_first() =~= Seq::<Expression>::empty());
        assert(e2.lookup(c, n@) == Some(v));
        assert(seq![bv, nil()].push(v) =~= seq![bv, nil(), v]);
    }
    let s10 = State { stack: List::Empty, envs: e2, ret: v };
    assert(step(s9) == Transition::To(s10)) by {
        reveal(step);
        lemma_from_seq_elems(seq![bv, nil(), v]);
        assert(seq![bv, nil(), v].drop_first() =~= seq![nil(), v]);
        lemma_from_seq_elems(seq![nil(), v]);
    }
    assert(run(s10, (fuel - 10) as nat, answers) == Outcome::Value(v, e2));
    assert(run(s9, (fuel - 9) as nat, answers) == run(s10, (fuel - 10) as nat, answers));
    assert(run(s8, (fuel - 8) as nat, answers) == run(s9, (fuel - 9) as nat, answers));
    assert(run(s7, (fuel - 7) as nat, answers) == run(s8, (fuel - 8) as nat, answers));
    assert(run(s6, (fuel - 6) as nat, answers) == run(s7, (fuel - 7) as nat, answers));
    assert(run(s5, (fuel - 5) as nat, answers) == run(s6, (fuel - 6) as nat, answers));
    assert(run(s4, (fuel - 4) as nat, answers) == run(s5, (fuel - 5) as nat, answers));
    assert(run(s3, (fuel - 3) as nat, answers) == run(s4, (fuel - 4) as nat, answers));
    assert(run(s2, (fuel - 2) as nat, answers) == run(s3, (fuel - 3) as nat, answers));
    assert(run(s1, (fuel - 1) as nat, answers) == run(s2, (fuel - 2) as nat, answers));
    assert(run(s0, fuel, answers) == run(s1, (fuel - 1) as nat, answers));
    assert forall|name: Seq<char>| #[trigger] local_in(e2.bindings, e, name) == local_in(envs.bindings, e, name) by {
        assert(e2.bindings.drop_first() =~= e1.bindings);
        assert(e1.bindings.drop_first() =~= envs.bindings);
        assert(e2.bindings[0].0 == c && c != e);
        assert(local_in(e2.bindings, e, name) == local_in(e1.bindings, e, name));
        assert(e1.bindings[0].0 == c);
        assert(local_in(e1.bindings, e, name) == local_in(envs.bindings, e, name));
    }
}

/// A run that calls on the float unit nowhere comes out the same whatever
/// answers it is given.
pub proof fn lemma_run_without_floats(s: State, fuel: nat, answers: Answers)
    requires
        !(run(s, fuel, Seq::empty()) is Host),
    ensures
        run(s, fuel, answers) == run(s, fuel, Seq::empty()),
    decreases fuel,
{
    if !(s.stack is Empty) && fuel > 0 {
        match step(s) {
            Transition::To(n) => lemma_run_without_floats(n, (fuel - 1) as nat, answers),
            _ => {},
        }
    }
}

/// Evaluating expressions that call on the float unit nowhere comes out the
/// same whatever answers are given.
pub proof fn lemma_eval_all_without_floats(
    es: Seq<Expression>,
    env: usize,
    envs: Scopes,
    fuel: nat,
    last: Expression,
    answers: Seq<Answers>,
)
    requires
        !(eval_all(es, env, envs, fuel, last, Seq::empty()) is Host),
    ensures
        eval_all(es, env, envs, fuel, last, answers) == eval_all(es, env, envs, fuel, last, Seq::empty()),
    decreases es.len(),
{
    if es.len() > 0 {
        let a = if answers.len() > 0 {
            answers[0]
        } else {
            Seq::empty()
        };
        match es[0] {
            Expression::List(l) => {
                if !(run(crate::eval::eval::start(*l, env, envs), fuel, Seq::empty()) is Host) {
                    lemma_run_without_floats(crate::eval::eval::start(*l, env, envs), fuel, a);
                }
            },
            _ => {},
        }
        assert(eval_one(es[0], env, envs, fuel, a) == eval_one(es[0], env, envs, fuel, Seq::empty()));
        match eval_one(es[0], env, envs, fuel, Seq::empty()) {
            Outcome::Value(v, envs2) => {
                let rest = if answers.len() > 0 {
                    answers.drop_first()
                } else {
                    answers
                };
                lemma_eval_all_without_floats(es.drop_first(), env, envs2, fuel, v, rest);
            },
            _ => {},
        }
    }
}

/// Evaluation is deterministic: for a program that calls on the float unit
/// nowhere, any two results that the contract of `eval` allows against
/// fresh root environments are the same, and so are the environments left.
pub proof fn law_determinism_without_floats(
    program: Seq<Expression>,
    fuel: nat,
    r1: Result<Expression, EvalError>,
    envs1: Scopes,
    r2: Result<Expression, EvalError>,
    envs2: Scopes,
)
    requires
        !(eval_all(program, 0, root_scopes(), fuel, nil(), Seq::empty()) is Host),
        exists|a: Seq<Answers>| settles(#[trigger] eval_all(program, 0, root_scopes(), fuel, nil(), a), r1, envs1),
        exists|a: Seq<Answers>| settles(#[trigger] eval_all(program, 0, root_scopes(), fuel, nil(), a), r2, envs2),
    ensures
        r1 == r2,
        envs1 == envs2,
{
    let a1 = choose|a: Seq<Answers>| settles(#[trigger] eval_all(program, 0, root_scopes(), fuel, nil(), a), r1, envs1);
    let a2 = choose|a: Seq<Answers>| settles(#[trigger] eval_all(program, 0, root_scopes(), fuel, nil(), a), r2, envs2);
    lemma_eval_all_without_floats(program, 0, root_scopes(), fuel, nil(), a1);
    lemma_eval_all_without_floats(program, 0, root_scopes(), fuel, nil(), a2);
}

/// Evaluation is deterministic: any two results that the contract of `eval`
/// allows for one program against fresh root environments, with the float
/// unit answering alike, are the same, and so are the environments left.
pub proof fn law_determinism(
    program: Seq<Expression>,
    fuel: nat,
    answers: Seq<Answers>,
    r1: Result<Expression, EvalError>,
    envs1: Scopes,
    r2: Result<Expression, EvalError>,
    envs2: Scopes,
)
    requires
        settles(eval_all(program, 0, root_scopes(), fuel, nil(), answers), r1, envs1),
        settles(eval_all(program, 0, root_scopes(), fuel, nil(), answers), r2, envs2),
    ensures
        r1 == r2,
        envs1 == envs2,
{
}

} // verus!
