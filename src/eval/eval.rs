use crate::data::list::List;
use crate::eval::bind::{assign_env_values, assign_list, bind, bind_list};
use crate::eval::env::{Envs, Scopes};
use crate::eval::native::{apply_native, native, native_allows, Floats, NativeOutcome};
use crate::eval::types::{EvalError, Expression, NativeOp, Value};
use vstd::prelude::*;
use vstd::string::StringExecFns;

verus! {

/// One pending list evaluation: what is left of the list, the values
/// computed so far (callee first), and the environment in effect.
pub struct Frame {
    pub input: List<Expression>,
    pub output: List<Expression>,
    pub env: usize,
    /// Whether the frame binds values already computed: the bindings a
    /// `recur` makes.
    pub binds: bool,
}

/// The interpreter: a call stack with its top in front, the environments, and
/// the slot that receives a result when no frame is left to take it.
pub struct Machine {
    pub stack: List<Frame>,
    pub envs: Envs,
    pub ret: Expression,
}

/// What a [`Machine`] means.
pub struct State {
    pub stack: List<Frame>,
    pub envs: Scopes,
    pub ret: Expression,
}

impl View for Machine {
    type V = State;

    open spec fn view(&self) -> State {
        State { stack: self.stack, envs: self.envs@, ret: self.ret }
    }
}

/// Where one step of evaluation leads.
pub enum Transition {
    To(State),
    /// The step fails, leaving the machine in the given state: the frame
    /// taken off stays off, and what was done before the error stays done.
    Fails(EvalError, State),
    /// A native call whose result the float unit has a part in.
    Host(HostCall),
}

/// A native call that reaches the float unit: `op` on `args`, made by the
/// frame taken off `stack`.
pub struct HostCall {
    pub op: NativeOp,
    pub args: Seq<Expression>,
    pub stack: List<Frame>,
    pub envs: Scopes,
    pub ret: Expression,
}

/// The step fails with `x`, the frame taken off and nothing else changed.
pub open spec fn fail(x: EvalError, stack: List<Frame>, envs: Scopes, ret: Expression) -> Transition {
    Transition::Fails(x, State { stack, envs, ret })
}

pub open spec fn nil() -> Expression {
    Expression::Value(Value::Nil)
}

/// The callee that sequences a body: it returns its last argument.
pub open spec fn begin_value() -> Expression {
    Expression::Value(Value::NativeCall(NativeOp::Begin))
}

/// Whether `e` is the symbol spelled `w`.
pub open spec fn is_word(e: Expression, w: Seq<char>) -> bool {
    match e {
        Expression::Symbol(s) => s@ == w,
        _ => false,
    }
}

pub open spec fn head_is(l: List<Expression>, w: Seq<char>) -> bool {
    l@.len() > 0 && is_word(l@[0], w)
}

/// A fresh frame of form `w`: nothing evaluated, `w` first in the input.
pub open spec fn starts(f: Frame, w: Seq<char>) -> bool {
    f.output@.len() == 0 && head_is(f.input, w)
}

/// A frame driven by the state machine of form `w`.
pub open spec fn in_form(f: Frame, w: Seq<char>) -> bool {
    starts(f, w) || head_is(f.output, w)
}

pub open spec fn frame(input: Seq<Expression>, output: Seq<Expression>, env: usize) -> Frame {
    Frame { input: List::from_seq(input), output: List::from_seq(output), env, binds: false }
}

/// A frame that binds values already computed.
pub open spec fn binding_frame(input: Seq<Expression>, output: Seq<Expression>, env: usize) -> Frame {
    Frame { binds: true, ..frame(input, output, env) }
}

/// The frame a binder goes on with.
pub open spec fn pair_frame(input: Seq<Expression>, output: Seq<Expression>, env: usize, literal: bool) -> Frame {
    Frame { binds: literal, ..frame(input, output, env) }
}

pub open spec fn push_frame(f: Frame, stack: List<Frame>) -> List<Frame> {
    List::Normal { car: f, cdr: Box::new(stack) }
}

/// Hands `v` to the frame below, or to the return slot when there is none.
pub open spec fn route(v: Expression, stack: List<Frame>, envs: Scopes, ret: Expression) -> State {
    match stack {
        List::Empty => State { stack, envs, ret: v },
        List::Normal { car, cdr } => State {
            stack: List::Normal {
                car: Frame { output: List::from_seq(car.output@.push(v)), ..car },
                cdr,
            },
            envs,
            ret,
        },
    }
}

/// The top `n` frames taken off, but never below `depth` frames.
pub open spec fn truncate(stack: List<Frame>, depth: nat) -> List<Frame>
    decreases stack,
{
    if stack@.len() <= depth {
        stack
    } else {
        match stack {
            List::Empty => stack,
            List::Normal { car: _, cdr } => truncate(*cdr, depth),
        }
    }
}

/// Evaluating `e`, taken from the input of `f`, on top of `stack`.
pub open spec fn advance(e: Expression, f: Frame, stack: List<Frame>, envs: Scopes, ret: Expression) -> Transition {
    match e {
        Expression::Value(v) => Transition::To(
            State {
                stack: push_frame(Frame { output: List::from_seq(f.output@.push(e)), ..f }, stack),
                envs,
                ret,
            },
        ),
        Expression::Symbol(n) => match envs.lookup(f.env, n@) {
            Some(v) => Transition::To(
                State {
                    stack: push_frame(Frame { output: List::from_seq(f.output@.push(v)), ..f }, stack),
                    envs,
                    ret,
                },
            ),
            None => fail(EvalError::Unbound(n), stack, envs, ret),
        },
        Expression::List(l) => Transition::To(
            State {
                stack: push_frame(Frame { input: *l, output: List::Empty, env: f.env, binds: false }, push_frame(f, stack)),
                envs,
                ret,
            },
        ),
        Expression::Dot => fail(EvalError::DotOutsidePattern, stack, envs, ret),
    }
}

/// A binder frame (`def`, the bindings of a `loop`, or those of a `recur`)
/// whose output holds just its head: it takes the next pattern and the value
/// for it. A `def` or `loop` binder evaluates the value; a `recur` binder
/// holds values already. When no pair is left it returns `Nil`.
pub open spec fn next_pair(f: Frame, stack: List<Frame>, envs: Scopes, ret: Expression, literal: bool) -> Transition {
    let inp = f.input@;
    if inp.len() == 0 {
        Transition::To(route(nil(), stack, envs, ret))
    } else if inp.len() == 1 {
        fail(EvalError::Syntax, stack, envs, ret)
    } else if literal {
        Transition::To(
            State {
                stack: push_frame(binding_frame(inp.subrange(2, inp.len() as int), f.output@.push(inp[0]).push(inp[1]), f.env), stack),
                envs,
                ret,
            },
        )
    } else {
        advance(inp[1], frame(inp.subrange(2, inp.len() as int), f.output@.push(inp[0]), f.env), stack, envs, ret)
    }
}

/// `(def pattern value ...)`, and the bindings of a `loop` or a `recur`:
/// each pattern is bound as soon as its value is in.
pub open spec fn binder_step(f: Frame, stack: List<Frame>, envs: Scopes, ret: Expression, literal: bool) -> Transition {
    let out = f.output@;
    let inp = f.input@;
    if out.len() == 0 {
        next_pair(pair_frame(inp.drop_first(), seq![inp[0]], f.env, literal), stack, envs, ret, literal)
    } else if out.len() == 1 {
        next_pair(f, stack, envs, ret, literal)
    } else if out.len() == 3 {
        match bind(envs, f.env, out[1], out[2]) {
            Ok(envs2) => next_pair(pair_frame(inp, seq![out[0]], f.env, literal), stack, envs2, ret, literal),
            Err((x, envs2)) => Transition::Fails(x, State { stack, envs: envs2, ret }),
        }
    } else {
        fail(EvalError::Syntax, stack, envs, ret)
    }
}

/// `(cond t1 b1 t2 b2 ... [default])`.
pub open spec fn cond_step(f: Frame, stack: List<Frame>, envs: Scopes, ret: Expression) -> Transition {
    let out = f.output@;
    let inp = f.input@;
    if out.len() == 0 {
        Transition::To(State { stack: push_frame(frame(inp.drop_first(), seq![inp[0]], f.env), stack), envs, ret })
    } else if out.len() == 1 {
        if inp.len() == 0 {
            Transition::To(route(nil(), stack, envs, ret))
        } else if inp.len() == 1 {
            Transition::To(State { stack: push_frame(frame(seq![begin_value(), inp[0]], seq![], f.env), stack), envs, ret })
        } else {
            advance(inp[0], frame(inp.drop_first(), out, f.env), stack, envs, ret)
        }
    } else if out.len() == 2 {
        match out[1] {
            Expression::Value(Value::Bool(true)) => {
                let body = if inp.len() == 0 {
                    nil()
                } else {
                    inp[0]
                };
                Transition::To(State { stack: push_frame(frame(seq![begin_value(), body], seq![], f.env), stack), envs, ret })
            },
            Expression::Value(Value::Bool(false)) => {
                let rest = if inp.len() == 0 {
                    inp
                } else {
                    inp.drop_first()
                };
                Transition::To(State { stack: push_frame(frame(rest, seq![out[0]], f.env), stack), envs, ret })
            },
            _ => fail(EvalError::Syntax, stack, envs, ret),
        }
    } else {
        fail(EvalError::Syntax, stack, envs, ret)
    }
}

/// `(lambda params body...)` and `(macro params body...)`.
pub open spec fn closure_step(f: Frame, stack: List<Frame>, envs: Scopes, ret: Expression, is_macro: bool) -> Transition {
    let inp = f.input@;
    if inp.len() < 2 {
        fail(EvalError::Syntax, stack, envs, ret)
    } else {
        match inp[1] {
            Expression::List(params) => {
                let body = Box::new(List::from_seq(inp.subrange(2, inp.len() as int)));
                let v = if is_macro {
                    Value::Macro { args: params, body }
                } else {
                    Value::Lambda { env: f.env, args: params, body }
                };
                Transition::To(route(Expression::Value(v), stack, envs, ret))
            },
            _ => fail(EvalError::Syntax, stack, envs, ret),
        }
    }
}

/// `(quote x)`.
pub open spec fn quote_step(f: Frame, stack: List<Frame>, envs: Scopes, ret: Expression) -> Transition {
    let inp = f.input@;
    Transition::To(
        route(
            if inp.len() < 2 {
                nil()
            } else {
                inp[1]
            },
            stack,
            envs,
            ret,
        ),
    )
}

/// The patterns of a loop's bindings `(pattern value ...)`.
pub open spec fn patterns(s: Seq<Expression>) -> Seq<Expression>
    decreases s.len(),
{
    if s.len() < 2 {
        Seq::empty()
    } else {
        seq![s[0]] + patterns(s.subrange(2, s.len() as int))
    }
}

/// `(loop (pattern value ...) body...)` on entry: a child environment in which
/// `recur` is bound, the body waiting below as `(begin body...)` with `begin`
/// already in, and the bindings on top; their `Nil` is the body's first value.
pub open spec fn loop_enter(f: Frame, stack: List<Frame>, envs: Scopes, ret: Expression) -> Transition {
    let inp = f.input@;
    if inp.len() < 2 {
        fail(EvalError::Syntax, stack, envs, ret)
    } else {
        match inp[1] {
            Expression::List(params) => if params@.len() % 2 != 0 {
                fail(EvalError::Syntax, stack, envs, ret)
            } else if envs.parents.len() >= usize::MAX || stack@.len() >= usize::MAX {
                fail(EvalError::Overflow, stack, envs, ret)
            } else {
                let c = envs.parents.len() as usize;
                let body = List::from_seq(inp.subrange(2, inp.len() as int));
                let recur = Value::Recur {
                    env: c,
                    args: Box::new(List::from_seq(patterns(params@))),
                    body: Box::new(body),
                    depth: stack@.len() as usize,
                };
                let envs2 = envs.spawn(f.env).with(c, recur_name(), Expression::Value(recur));
                let body_frame = frame(body@, seq![begin_value()], c);
                let binder = frame(params@, seq![inp[0]], c);
                Transition::To(State { stack: push_frame(binder, push_frame(body_frame, stack)), envs: envs2, ret })
            },
            _ => fail(EvalError::Syntax, stack, envs, ret),
        }
    }
}

/// The patterns and values of a `recur` call, alternating.
pub open spec fn interleave(names: Seq<Expression>, values: Seq<Expression>) -> Seq<Expression>
    decreases names.len(),
{
    if names.len() == 0 || values.len() == 0 {
        Seq::empty()
    } else {
        seq![names[0], values[0]] + interleave(names.drop_first(), values.drop_first())
    }
}

pub open spec fn recur_name() -> Seq<char> {
    seq!['r', 'e', 'c', 'u', 'r']
}

/// Applying `callee` to `args`, the evaluated rest of a finished frame.
pub open spec fn apply(callee: Expression, args: List<Expression>, stack: List<Frame>, envs: Scopes, ret: Expression) -> Transition {
    match callee {
        Expression::Value(Value::NativeCall(op)) => match native(op, args@) {
            NativeOutcome::Done(Ok(v)) => Transition::To(route(v, stack, envs, ret)),
            NativeOutcome::Done(Err(x)) => fail(x, stack, envs, ret),
            _ => Transition::Host(HostCall { op, args: args@, stack, envs, ret }),
        },
        Expression::Value(Value::Lambda { env, args: params, body }) => if envs.parents.len() >= usize::MAX {
            fail(EvalError::Overflow, stack, envs, ret)
        } else {
            let c = envs.parents.len() as usize;
            match bind_list(envs.spawn(env), c, *params, args) {
                Ok(envs2) => Transition::To(
                    State { stack: push_frame(frame(seq![begin_value()] + body@, seq![], c), stack), envs: envs2, ret },
                ),
                Err((x, envs2)) => Transition::Fails(x, State { stack, envs: envs2, ret }),
            }
        },
        Expression::Value(Value::Recur { env, args: params, body, depth }) => if params@.len() != args@.len() {
            fail(EvalError::Arity, stack, envs, ret)
        } else {
            let body_frame = frame(body@, seq![begin_value()], env);
            let binder = binding_frame(interleave(params@, args@), seq![callee], env);
            Transition::To(State { stack: push_frame(binder, push_frame(body_frame, truncate(stack, depth as nat))), envs, ret })
        },
        Expression::Value(Value::Macro { .. }) => fail(EvalError::NotImplemented, stack, envs, ret),
        _ => fail(EvalError::NotCallable, stack, envs, ret),
    }
}

/// One step: the top frame is taken off and advanced.
#[verifier::opaque]
pub open spec fn step(s: State) -> Transition {
    match s.stack {
        List::Empty => Transition::To(s),
        List::Normal { car: f, cdr } => {
            let rest = *cdr;
            if in_form(f, "def"@) {
                binder_step(f, rest, s.envs, s.ret, false)
            } else if in_form(f, "cond"@) {
                cond_step(f, rest, s.envs, s.ret)
            } else if starts(f, "lambda"@) {
                closure_step(f, rest, s.envs, s.ret, false)
            } else if starts(f, "macro"@) {
                closure_step(f, rest, s.envs, s.ret, true)
            } else if starts(f, "quote"@) {
                quote_step(f, rest, s.envs, s.ret)
            } else if starts(f, "loop"@) {
                loop_enter(f, rest, s.envs, s.ret)
            } else if head_is(f.output, "loop"@) {
                binder_step(f, rest, s.envs, s.ret, false)
            } else if f.binds && f.output@.len() > 0 {
                binder_step(f, rest, s.envs, s.ret, true)
            } else {
                match f.input {
                    List::Normal { car: e, cdr: more } => advance(e, Frame { input: *more, ..f }, rest, s.envs, s.ret),
                    List::Empty => match f.output {
                        List::Empty => Transition::To(route(Expression::List(Box::new(List::Empty)), rest, s.envs, s.ret)),
                        List::Normal { car: callee, cdr: args } => apply(callee, *args, rest, s.envs, s.ret),
                    },
                }
            }
        },
    }
}

/// How a run ends: a value with the environments it left, an error with the
/// environments as it left them, or `Host` where the float unit's answers
/// given to the run do not reach that far.
pub enum Outcome {
    Value(Expression, Scopes),
    /// The error, with the environments as the error left them.
    Error(EvalError, Scopes),
    Host,
}

/// Where a native call `h` leads when the float unit's part comes out as `res`.
pub open spec fn host_result(h: HostCall, res: Result<Expression, EvalError>) -> Transition {
    match res {
        Ok(v) => Transition::To(route(v, h.stack, h.envs, h.ret)),
        Err(x) => Transition::Fails(x, State { stack: h.stack, envs: h.envs, ret: h.ret }),
    }
}

/// What the float unit may answer to one call, in the order of the calls.
pub type Answers = Seq<Result<Expression, EvalError>>;

/// Steps until the stack is empty, at most `fuel` of them. The native calls
/// that reach the float unit take their results from `answers` in turn; the
/// run ends in `Host` where no answer is left or one is not a result the
/// call may give.
pub open spec fn run(s: State, fuel: nat, answers: Answers) -> Outcome
    decreases fuel,
{
    match s.stack {
        List::Empty => Outcome::Value(s.ret, s.envs),
        _ => if fuel == 0 {
            Outcome::Error(EvalError::OutOfFuel, s.envs)
        } else {
            match step(s) {
                Transition::To(n) => run(n, (fuel - 1) as nat, answers),
                Transition::Fails(x, n) => Outcome::Error(x, n.envs),
                Transition::Host(h) => if answers.len() > 0 && native_allows(h.op, h.args, answers[0]) {
                    match host_result(h, answers[0]) {
                        Transition::To(n) => run(n, (fuel - 1) as nat, answers.drop_first()),
                        Transition::Fails(x, n) => Outcome::Error(x, n.envs),
                        Transition::Host(_) => Outcome::Host,
                    }
                } else {
                    Outcome::Host
                },
            }
        },
    }
}

/// The machine that evaluates list `l` as one application in `env`.
pub open spec fn start(l: List<Expression>, env: usize, envs: Scopes) -> State {
    State { stack: push_frame(Frame { input: l, output: List::Empty, env, binds: false }, List::Empty), envs, ret: nil() }
}

/// Evaluating one expression: a list runs on the machine, a symbol is looked
/// up, anything else is its own value.
pub open spec fn eval_one(e: Expression, env: usize, envs: Scopes, fuel: nat, answers: Answers) -> Outcome {
    match e {
        Expression::List(l) => run(start(*l, env, envs), fuel, answers),
        Expression::Symbol(n) => match envs.lookup(env, n@) {
            Some(v) => Outcome::Value(v, envs),
            None => Outcome::Error(EvalError::Unbound(n), envs),
        },
        Expression::Dot => Outcome::Error(EvalError::DotOutsidePattern, envs),
        _ => Outcome::Value(e, envs),
    }
}

/// Evaluating `es` in order against the same environments; the last value
/// is the result, `last` when there is none. Expression `es[k]` takes the
/// float unit's answers from `answers[k]`.
pub open spec fn eval_all(es: Seq<Expression>, env: usize, envs: Scopes, fuel: nat, last: Expression, answers: Seq<Answers>) -> Outcome
    decreases es.len(),
{
    if es.len() == 0 {
        Outcome::Value(last, envs)
    } else {
        let a = if answers.len() > 0 {
            answers[0]
        } else {
            Seq::empty()
        };
        match eval_one(es[0], env, envs, fuel, a) {
            Outcome::Value(v, envs2) => eval_all(
                es.drop_first(),
                env,
                envs2,
                fuel,
                v,
                if answers.len() > 0 {
                    answers.drop_first()
                } else {
                    answers
                },
            ),
            other => other,
        }
    }
}

/// Whether an exec result and the final environments agree with outcome `o`,
/// which is not left open.
pub open spec fn settles(o: Outcome, r: Result<Expression, EvalError>, envs: Scopes) -> bool {
    !(o is Host) && matches_outcome(o, r, envs)
}

/// Whether an exec result and the final environments agree with outcome `o`.
pub open spec fn matches_outcome(o: Outcome, r: Result<Expression, EvalError>, envs: Scopes) -> bool {
    match o {
        Outcome::Value(v, e) => r == Ok::<Expression, EvalError>(v) && envs == e,
        Outcome::Error(x, e) => r == Err::<Expression, EvalError>(x) && envs == e,
        Outcome::Host => true,
    }
}

/// Whether the exec side did what transition `t` says.
pub open spec fn follows(t: Transition, after: State, r: Result<(), EvalError>) -> bool {
    match t {
        Transition::To(s) => r is Ok && after == s,
        Transition::Fails(x, s) => r == Err::<(), EvalError>(x) && after == s,
        Transition::Host(h) => exists|res: Result<Expression, EvalError>|
            {
                &&& native_allows(h.op, h.args, res)
                &&& match res {
                    Ok(v) => r is Ok && after == route(v, h.stack, h.envs, h.ret),
                    Err(x) => r == Err::<(), EvalError>(x) && after == (State { stack: h.stack, envs: h.envs, ret: h.ret }),
                }
            },
    }
}

/// `min(l.len(), 4)`, without walking further.
fn small_len<T>(l: &List<T>) -> (r: usize)
    ensures
        r as int == if l@.len() < 4 {
            l@.len() as int
        } else {
            4
        },
{
    let mut n: usize = 0;
    let mut cursor = l;
    while n < 4 && !cursor.is_empty()
        invariant
            n <= 4,
            n + cursor@.len() == l@.len(),
        decreases cursor@.len(),
    {
        cursor = cursor.tail();
        n = n + 1;
    }
    n
}

/// Whether `e` is the symbol spelled `w`.
fn is_word_exec(e: &Expression, w: &str) -> (r: bool)
    ensures
        r == is_word(*e, w@),
{
    match e {
        Expression::Symbol(s) => {
            let k = String::from_str(w);
            s.eq(&k)
        },
        _ => false,
    }
}

fn head_is_exec(l: &List<Expression>, w: &str) -> (r: bool)
    ensures
        r == head_is(*l, w@),
{
    match l.head() {
        Some(e) => is_word_exec(e, w),
        None => false,
    }
}

/// A list holding `a` alone.
fn single<T>(a: T) -> (r: List<T>)
    ensures
        r == List::from_seq(seq![a]),
        r@ == seq![a],
{
    let mut l = List::new();
    l.push_top(a);
    proof {
        List::lemma_from_seq_view(l);
    }
    l
}

/// `(begin x)` as a frame of its own.
fn begin_frame(x: Expression, env: usize) -> (r: Frame)
    ensures
        r == frame(seq![begin_value(), x], seq![], env),
{
    let mut input = List::new();
    input.push_top(x);
    input.push_top(Expression::Value(Value::NativeCall(NativeOp::Begin)));
    proof {
        List::lemma_from_seq_view(input);
        assert(input@ =~= seq![begin_value(), x]);
        List::<Expression>::lemma_from_seq_view(List::Empty);
    }
    Frame { input, output: List::new(), env, binds: false }
}

/// `(begin body...)` waiting for its first value, with `begin` already in.
fn waiting_body_frame(body: List<Expression>, env: usize) -> (r: Frame)
    ensures
        r == frame(body@, seq![begin_value()], env),
{
    proof {
        List::lemma_from_seq_view(body);
    }
    Frame { input: body, output: single(Expression::Value(Value::NativeCall(NativeOp::Begin))), env, binds: false }
}

/// The patterns and values of a `recur` call, alternating.
fn interleave_exec(names: &List<Expression>, values: List<Expression>) -> (r: List<Expression>)
    ensures
        r == List::from_seq(interleave(names@, values@)),
    decreases names,
{
    let ghost a = names@;
    let ghost b = values@;
    match names {
        List::Normal { car, cdr } => match values {
            List::Normal { car: v, cdr: vs } => {
                let rest = interleave_exec(cdr, *vs);
                proof {
                    assert(a.drop_first() =~= cdr@);
                    assert(b.drop_first() =~= vs@);
                    let tail = interleave(cdr@, vs@);
                    let whole = seq![a[0], b[0]] + tail;
                    assert(interleave(a, b) == whole);
                    assert(whole.drop_first() =~= seq![b[0]] + tail);
                    assert((seq![b[0]] + tail).drop_first() =~= tail);
                    assert(List::from_seq(seq![b[0]] + tail) == List::Normal { car: b[0], cdr: Box::new(List::from_seq(tail)) });
                    assert(List::from_seq(whole) == List::Normal {
                        car: a[0],
                        cdr: Box::new(List::from_seq(seq![b[0]] + tail)),
                    });
                }
                List::Normal { car: car.copy(), cdr: Box::new(List::Normal { car: v, cdr: Box::new(rest) }) }
            },
            List::Empty => {
                proof {
                    assert(interleave(a, b) =~= Seq::<Expression>::empty());
                }
                List::Empty
            },
        },
        List::Empty => {
            proof {
                assert(interleave(a, b) =~= Seq::<Expression>::empty());
            }
            List::Empty
        },
    }
}

/// `(begin body...)` as a frame of its own.
fn body_frame(body: List<Expression>, env: usize) -> (r: Frame)
    ensures
        r == frame(seq![begin_value()] + body@, seq![], env),
{
    let mut input = body;
    input.push_top(Expression::Value(Value::NativeCall(NativeOp::Begin)));
    proof {
        List::lemma_from_seq_view(input);
        List::<Expression>::lemma_from_seq_view(List::Empty);
    }
    Frame { input, output: List::new(), env, binds: false }
}

fn even_len<T>(l: &List<T>) -> (r: bool)
    ensures
        r == (l@.len() % 2 == 0),
{
    let mut even = true;
    let mut cursor = l;
    let ghost mut seen: nat = 0;
    while !cursor.is_empty()
        invariant
            seen + cursor@.len() == l@.len(),
            even == (seen % 2 == 0),
        decreases cursor@.len(),
    {
        cursor = cursor.tail();
        even = !even;
        proof {
            seen = seen + 1;
        }
    }
    even
}

/// `min(l.len(), usize::MAX)`.
fn count<T>(l: &List<T>) -> (r: usize)
    ensures
        r as int == if l@.len() < usize::MAX {
            l@.len() as int
        } else {
            usize::MAX as int
        },
{
    let mut n: usize = 0;
    let mut cursor = l;
    while n < usize::MAX && !cursor.is_empty()
        invariant
            n + cursor@.len() == l@.len(),
        decreases cursor@.len(),
    {
        cursor = cursor.tail();
        n = n + 1;
    }
    n
}

fn longer_than<T>(l: &List<T>, d: usize) -> (r: bool)
    ensures
        r == (l@.len() > d),
{
    let mut n: usize = 0;
    let mut cursor = l;
    while n < d && !cursor.is_empty()
        invariant
            n <= d,
            n + cursor@.len() == l@.len(),
        decreases cursor@.len(),
    {
        cursor = cursor.tail();
        n = n + 1;
    }
    n == d && !cursor.is_empty()
}

fn same_len<T, U>(a: &List<T>, b: &List<U>) -> (r: bool)
    ensures
        r == (a@.len() == b@.len()),
{
    let mut x = a;
    let mut y = b;
    while !x.is_empty() && !y.is_empty()
        invariant
            a@.len() - x@.len() == b@.len() - y@.len(),
            x@.len() <= a@.len(),
            y@.len() <= b@.len(),
        decreases x@.len(),
    {
        x = x.tail();
        y = y.tail();
    }
    x.is_empty() && y.is_empty()
}

/// The patterns of a loop's bindings, copied.
fn patterns_exec(l: &List<Expression>) -> (r: List<Expression>)
    ensures
        r == List::from_seq(patterns(l@)),
    decreases l@.len(),
{
    match l {
        List::Empty => List::Empty,
        List::Normal { car, cdr } => match &**cdr {
            List::Empty => {
                proof {
                    assert(l@ == seq![*car] + cdr@);
                }
                List::Empty
            },
            List::Normal { car: second, cdr: rest } => {
                proof {
                    assert(l@ == seq![*car] + cdr@);
                    assert(cdr@ == seq![*second] + rest@);
                }
                let more = patterns_exec(rest);
                proof {
                    assert(l@.subrange(2, l@.len() as int) =~= rest@);
                    assert(patterns(l@) == seq![*car] + patterns(rest@));
                    List::lemma_from_seq_view(more);
                    assert((seq![*car] + patterns(rest@)).drop_first() =~= patterns(rest@));
                }
                List::Normal { car: car.copy(), cdr: Box::new(more) }
            },
        },
    }
}

impl Machine {
    /// Hands `v` to the frame on top, or to the return slot.
    fn route(&mut self, v: Expression)
        ensures
            final(self)@ == route(v, old(self).stack, old(self)@.envs, old(self).ret),
            final(self).envs == old(self).envs,
    {
        match &mut self.stack {
            List::Normal { car, cdr: _ } => {
                car.output.push(v);
                proof {
                    List::lemma_from_seq_view(car.output);
                }
            },
            List::Empty => {
                self.ret = v;
            },
        }
    }

    /// Evaluates `e`, taken from the input of `f`, with `f` below the stack.
    fn advance(&mut self, e: Expression, f: Frame) -> (r: Result<(), EvalError>)
        ensures
            follows(advance(e, f, old(self).stack, old(self)@.envs, old(self).ret), final(self)@, r),
            final(self).envs == old(self).envs,
    {
        let mut f = f;
        match e {
            Expression::Value(v) => {
                f.output.push(Expression::Value(v));
                proof {
                    List::lemma_from_seq_view(f.output);
                }
                self.stack.push_top(f);
                Ok(())
            },
            Expression::Symbol(n) => match self.envs.get(f.env, &n) {
                Some(v) => {
                    f.output.push(v);
                    proof {
                        List::lemma_from_seq_view(f.output);
                    }
                    self.stack.push_top(f);
                    Ok(())
                },
                None => Err(EvalError::Unbound(n)),
            },
            Expression::List(l) => {
                let env = f.env;
                self.stack.push_top(f);
                self.stack.push_top(Frame { input: *l, output: List::new(), env, binds: false });
                Ok(())
            },
            Expression::Dot => Err(EvalError::DotOutsidePattern),
        }
    }

    /// The next pattern of a binder frame, or its end.
    fn next_pair(&mut self, f: Frame, literal: bool) -> (r: Result<(), EvalError>)
        ensures
            follows(next_pair(f, old(self).stack, old(self)@.envs, old(self).ret, literal), final(self)@, r),
            final(self).envs == old(self).envs,
    {
        let mut f = f;
        f.binds = literal;
        let ghost inp = f.input@;
        let ghost out = f.output@;
        match f.input.shift() {
            None => {
                self.route(Expression::Value(Value::Nil));
                Ok(())
            },
            Some(pat) => match f.input.shift() {
                None => Err(EvalError::Syntax),
                Some(e) => {
                    f.output.push(pat);
                    proof {
                        List::lemma_from_seq_view(f.input);
                        assert(f.input@ =~= inp.subrange(2, inp.len() as int));
                    }
                    if literal {
                        f.output.push(e);
                        proof {
                            List::lemma_from_seq_view(f.output);
                        }
                        self.stack.push_top(f);
                        Ok(())
                    } else {
                        proof {
                            List::lemma_from_seq_view(f.output);
                        }
                        self.advance(e, f)
                    }
                },
            },
        }
    }

    /// A step of `cond`.
    fn cond_step(&mut self, f: Frame) -> (r: Result<(), EvalError>)
        requires
            f.output@.len() == 0 ==> f.input@.len() > 0,
        ensures
            follows(cond_step(f, old(self).stack, old(self)@.envs, old(self).ret), final(self)@, r),
            final(self).envs == old(self).envs,
    {
        let mut f = f;
        f.binds = false;
        let n = small_len(&f.output);
        if n == 0 {
            let kw = f.input.shift().unwrap();
            let out = single(kw);
            proof {
                List::lemma_from_seq_view(f.input);
            }
            self.stack.push_top(Frame { input: f.input, output: out, env: f.env, binds: false });
            Ok(())
        } else if n == 1 {
            let m = small_len(&f.input);
            if m == 0 {
                self.route(Expression::Value(Value::Nil));
                Ok(())
            } else if m == 1 {
                let d = f.input.shift().unwrap();
                self.stack.push_top(begin_frame(d, f.env));
                Ok(())
            } else {
                let t = f.input.shift().unwrap();
                proof {
                    List::lemma_from_seq_view(f.input);
                    List::lemma_from_seq_view(f.output);
                }
                self.advance(t, f)
            }
        } else if n == 2 {
            let kw = f.output.shift().unwrap();
            let t = f.output.shift().unwrap();
            match t {
                Expression::Value(Value::Bool(true)) => {
                    let body = match f.input.shift() {
                        Some(b) => b,
                        None => Expression::Value(Value::Nil),
                    };
                    self.stack.push_top(begin_frame(body, f.env));
                    Ok(())
                },
                Expression::Value(Value::Bool(false)) => {
                    let _ = f.input.shift();
                    let out = single(kw);
                    proof {
                        List::lemma_from_seq_view(f.input);
                    }
                    self.stack.push_top(Frame { input: f.input, output: out, env: f.env, binds: false });
                    Ok(())
                },
                _ => Err(EvalError::Syntax),
            }
        } else {
            Err(EvalError::Syntax)
        }
    }

    /// `lambda` and `macro`: a closure value, returned at once.
    fn closure_step(&mut self, f: Frame, is_macro: bool) -> (r: Result<(), EvalError>)
        ensures
            follows(closure_step(f, old(self).stack, old(self)@.envs, old(self).ret, is_macro), final(self)@, r),
            final(self).envs == old(self).envs,
    {
        let mut f = f;
        let ghost inp = f.input@;
        let _ = f.input.shift();
        match f.input.shift() {
            Some(Expression::List(params)) => {
                proof {
                    List::lemma_from_seq_view(f.input);
                    assert(f.input@ =~= inp.subrange(2, inp.len() as int));
                }
                let body = Box::new(f.input);
                let v = if is_macro {
                    Value::Macro { args: params, body }
                } else {
                    Value::Lambda { env: f.env, args: params, body }
                };
                self.route(Expression::Value(v));
                Ok(())
            },
            _ => Err(EvalError::Syntax),
        }
    }

    /// `quote`: its argument, unevaluated.
    fn quote_step(&mut self, f: Frame) -> (r: Result<(), EvalError>)
        ensures
            follows(quote_step(f, old(self).stack, old(self)@.envs, old(self).ret), final(self)@, r),
            final(self).envs == old(self).envs,
    {
        let mut f = f;
        let _ = f.input.shift();
        let x = match f.input.shift() {
            Some(x) => x,
            None => Expression::Value(Value::Nil),
        };
        self.route(x);
        Ok(())
    }

    /// Entering a `loop`.
    fn loop_enter(&mut self, f: Frame) -> (r: Result<(), EvalError>)
        requires
            old(self).envs.wf(),
        ensures
            follows(loop_enter(f, old(self).stack, old(self)@.envs, old(self).ret), final(self)@, r),
            final(self).envs.wf(),
    {
        let mut f = f;
        let ghost inp = f.input@;
        let kw = match f.input.shift() {
            Some(kw) => kw,
            None => {
                return Err(EvalError::Syntax);
            },
        };
        match f.input.shift() {
            Some(Expression::List(params)) => {
                if !even_len(&params) {
                    return Err(EvalError::Syntax);
                }
                if self.envs.count == usize::MAX {
                    return Err(EvalError::Overflow);
                }
                let depth = count(&self.stack);
                if depth == usize::MAX {
                    return Err(EvalError::Overflow);
                }
                proof {
                    List::lemma_from_seq_view(f.input);
                    assert(f.input@ =~= inp.subrange(2, inp.len() as int));
                }
                let c = self.envs.child(f.env);
                let names = patterns_exec(&params);
                let body = crate::eval::types::copy_list(&f.input);
                let recur = Value::Recur { env: c, args: Box::new(names), body: Box::new(body), depth };
                let name = String::from_str("recur");
                proof {
                    reveal_strlit("recur");
                    assert(name@ =~= recur_name());
                }
                self.envs.set(c, name, Expression::Value(recur));
                let binder = Frame { input: *params, output: single(kw), env: c, binds: false };
                proof {
                    List::lemma_from_seq_view(binder.input);
                }
                self.stack.push_top(waiting_body_frame(f.input, c));
                self.stack.push_top(binder);
                Ok(())
            },
            _ => Err(EvalError::Syntax),
        }
    }

    /// Takes frames off the top until at most `depth` are left.
    fn truncate(&mut self, depth: usize)
        ensures
            final(self)@ == (State { stack: truncate(old(self).stack, depth as nat), ..old(self)@ }),
            final(self).envs == old(self).envs,
    {
        while longer_than(&self.stack, depth)
            invariant
                truncate(self.stack, depth as nat) == truncate(old(self).stack, depth as nat),
                self.envs == old(self).envs,
                self.ret == old(self).ret,
            decreases self.stack@.len(),
        {
            let ghost before = self.stack;
            let _ = self.stack.shift();
            proof {
                match before {
                    List::Normal { car: _, cdr } => {
                        assert(before@.drop_first() =~= cdr@);
                        List::lemma_view_injective(self.stack, *cdr);
                    },
                    List::Empty => {},
                }
            }
        }
    }

    /// Applies `callee` to `args`.
    fn apply<F: Floats>(&mut self, callee: Expression, args: List<Expression>, fu: &F) -> (r: Result<(), EvalError>)
        requires
            old(self).envs.wf(),
        ensures
            follows(apply(callee, args, old(self).stack, old(self)@.envs, old(self).ret), final(self)@, r),
            final(self).envs.wf(),
    {
        match callee {
            Expression::Value(Value::NativeCall(op)) => {
                let res = apply_native(op, &args, fu);
                let ghost h = HostCall { op, args: args@, stack: self.stack, envs: self@.envs, ret: self.ret };
                match res {
                    Ok(v) => {
                        self.route(v);
                        proof {
                            assert(native_allows(h.op, h.args, res));
                        }
                        Ok(())
                    },
                    Err(x) => {
                        proof {
                            assert(native_allows(h.op, h.args, res));
                        }
                        Err(x)
                    },
                }
            },
            Expression::Value(Value::Lambda { env, args: params, body }) => {
                if self.envs.count == usize::MAX {
                    return Err(EvalError::Overflow);
                }
                let c = self.envs.child(env);
                match assign_list(&mut self.envs, c, *params, args) {
                    Ok(()) => {
                        self.stack.push_top(body_frame(*body, c));
                        Ok(())
                    },
                    Err(x) => Err(x),
                }
            },
            Expression::Value(Value::Recur { env, args: params, body, depth }) => {
                if !same_len(&params, &args) {
                    return Err(EvalError::Arity);
                }
                let head = Expression::Value(
                    Value::Recur {
                        env,
                        args: Box::new(crate::eval::types::copy_list(&params)),
                        body: Box::new(crate::eval::types::copy_list(&body)),
                        depth,
                    },
                );
                let pairs = interleave_exec(&params, args);
                let binder = Frame { input: pairs, output: single(head), env, binds: true };
                self.truncate(depth);
                self.stack.push_top(waiting_body_frame(*body, env));
                self.stack.push_top(binder);
                Ok(())
            },
            Expression::Value(Value::Macro { .. }) => Err(EvalError::NotImplemented),
            _ => Err(EvalError::NotCallable),
        }
    }

    fn starts_exec(f: &Frame, w: &str) -> (r: bool)
        ensures
            r == starts(*f, w@),
    {
        f.output.is_empty() && head_is_exec(&f.input, w)
    }

    fn in_form_exec(f: &Frame, w: &str) -> (r: bool)
        ensures
            r == in_form(*f, w@),
    {
        Machine::starts_exec(f, w) || head_is_exec(&f.output, w)
    }

    /// One step of evaluation, as [`step`] says.
    pub fn step<F: Floats>(&mut self, fu: &F) -> (r: Result<(), EvalError>)
        requires
            old(self).envs.wf(),
        ensures
            follows(step(old(self)@), final(self)@, r),
            final(self).envs.wf(),
    {
        reveal(step);
        let mut st = List::Empty;
        std::mem::swap(&mut st, &mut self.stack);
        match st {
            List::Empty => {
                self.stack = List::Empty;
                Ok(())
            },
            List::Normal { car: f, cdr } => {
                self.stack = *cdr;
                if Machine::in_form_exec(&f, "def") {
                    self.binder_step(f, false)
                } else if Machine::in_form_exec(&f, "cond") {
                    self.cond_step(f)
                } else if Machine::starts_exec(&f, "lambda") {
                    self.closure_step(f, false)
                } else if Machine::starts_exec(&f, "macro") {
                    self.closure_step(f, true)
                } else if Machine::starts_exec(&f, "quote") {
                    self.quote_step(f)
                } else if Machine::starts_exec(&f, "loop") {
                    self.loop_enter(f)
                } else if head_is_exec(&f.output, "loop") {
                    self.binder_step(f, false)
                } else if f.binds && !f.output.is_empty() {
                    self.binder_step(f, true)
                } else {
                    let ghost f0 = f;
                    let mut f = f;
                    match f.input.shift() {
                        Some(e) => {
                            proof {
                                match f0.input {
                                    List::Normal { car: _, cdr: more } => {
                                        assert(f0.input@.drop_first() =~= more@);
                                        List::lemma_view_injective(f.input, *more);
                                    },
                                    List::Empty => {},
                                }
                            }
                            self.advance(e, f)
                        },
                        None => match f.output.shift() {
                            None => {
                                self.route(Expression::List(Box::new(List::Empty)));
                                Ok(())
                            },
                            Some(callee) => {
                                proof {
                                    match f0.output {
                                        List::Normal { car: _, cdr: args } => {
                                            assert(f0.output@.drop_first() =~= args@);
                                            List::lemma_view_injective(f.output, *args);
                                        },
                                        List::Empty => {},
                                    }
                                }
                                self.apply(callee, f.output, fu)
                            },
                        },
                    }
                }
            },
        }
    }

    /// Steps until the stack is empty or `fuel` steps are spent: the result
    /// is what [`run`] gives for some answers the float unit may give.
    pub fn run<F: Floats>(&mut self, fuel: u64, fu: &F) -> (r: Result<Expression, EvalError>)
        requires
            old(self).envs.wf(),
        ensures
            exists|answers: Answers| settles(#[trigger] run(old(self)@, fuel as nat, answers), r, final(self)@.envs),
            final(self).envs.wf(),
    {
        let mut left = fuel;
        let ghost s0 = self@;
        let ghost fuel0 = fuel as nat;
        let ghost mut used: Answers = Seq::empty();
        proof {
            assert forall|future: Answers| #[trigger] run(s0, fuel0, used + future) == run(self@, left as nat, future) by {
                assert(used + future =~= future);
            }
        }
        while !self.stack.is_empty()
            invariant
                self.envs.wf(),
                s0 == old(self)@,
                fuel0 == fuel as nat,
                forall|future: Answers| #[trigger] run(s0, fuel0, used + future) == run(self@, left as nat, future),
            decreases left,
        {
            let ghost pre = self@;
            proof {
                assert(pre.stack is Normal);
                assert(used + Seq::<Result<Expression, EvalError>>::empty() =~= used);
                assert(run(s0, fuel0, used + Seq::<Result<Expression, EvalError>>::empty()) == run(pre, left as nat, Seq::empty()));
            }
            if left == 0 {
                proof {
                    assert(run(pre, 0, Seq::empty()) == Outcome::Error(EvalError::OutOfFuel, pre.envs));
                    assert(settles(run(s0, fuel0, used), Err(EvalError::OutOfFuel), self@.envs));
                }
                return Err(EvalError::OutOfFuel);
            }
            let res = self.step(fu);
            proof {
                match step(pre) {
                    Transition::To(n) => {
                        assert forall|future: Answers| #[trigger] run(s0, fuel0, used + future) == run(self@, (left - 1) as nat, future) by {
                            assert(run(s0, fuel0, used + future) == run(pre, left as nat, future));
                        }
                    },
                    Transition::Fails(x, n) => {
                        assert(run(pre, left as nat, Seq::empty()) == Outcome::Error(x, n.envs));
                        assert(run(s0, fuel0, used) == Outcome::Error(x, n.envs));
                    },
                    Transition::Host(h) => {
                        let got = choose|got: Result<Expression, EvalError>|
                            {
                                &&& native_allows(h.op, h.args, got)
                                &&& match got {
                                    Ok(v) => res is Ok && self@ == route(v, h.stack, h.envs, h.ret),
                                    Err(x) => res == Err::<(), EvalError>(x) && self@ == (State { stack: h.stack, envs: h.envs, ret: h.ret }),
                                }
                            };
                        assert forall|future: Answers| #[trigger] run(s0, fuel0, used.push(got) + future) == run(pre, left as nat, seq![got] + future) by {
                            assert(used.push(got) + future =~= used + (seq![got] + future));
                            assert(run(s0, fuel0, used + (seq![got] + future)) == run(pre, left as nat, seq![got] + future));
                        }
                        assert forall|future: Answers| #[trigger] run(pre, left as nat, seq![got] + future) == match got {
                            Ok(_) => run(self@, (left - 1) as nat, future),
                            Err(x) => Outcome::Error(x, h.envs),
                        } by {
                            assert((seq![got] + future)[0] == got);
                            assert((seq![got] + future).drop_first() =~= future);
                        }
                        used = used.push(got);
                        assert(run(s0, fuel0, used + Seq::<Result<Expression, EvalError>>::empty()) == run(pre, left as nat, seq![got] + Seq::<Result<Expression, EvalError>>::empty()));
                        assert(used + Seq::<Result<Expression, EvalError>>::empty() =~= used);
                    },
                }
            }
            match res {
                Ok(()) => {},
                Err(x) => {
                    proof {
                        assert(settles(run(s0, fuel0, used), Err(x), self@.envs));
                    }
                    return Err(x);
                },
            }
            left = left - 1;
        }
        proof {
            assert(self@.stack is Empty);
            assert(used + Seq::<Result<Expression, EvalError>>::empty() =~= used);
            assert(run(s0, fuel0, used + Seq::<Result<Expression, EvalError>>::empty()) == run(self@, left as nat, Seq::empty()));
        }
        let r = self.ret.copy();
        proof {
            assert(settles(run(s0, fuel0, used), Ok::<Expression, EvalError>(r), self@.envs));
        }
        Ok(r)
    }
}

/// The name each native is bound to in the root environment.
pub open spec fn native_name(op: NativeOp) -> Seq<char> {
    match op {
        NativeOp::Sum => "+"@,
        NativeOp::Subtract => "-"@,
        NativeOp::Multiply => "*"@,
        NativeOp::Divide => "/"@,
        NativeOp::Pow => "pow"@,
        NativeOp::Eq => "="@,
        NativeOp::Ne => "!="@,
        NativeOp::Gt => ">"@,
        NativeOp::Lt => "<"@,
        NativeOp::Ge => ">="@,
        NativeOp::Le => "<="@,
        NativeOp::Begin => "begin"@,
        NativeOp::List => "list"@,
    }
}

fn bind_native(envs: &mut Envs, env: usize, name: &str, op: NativeOp)
    ensures
        final(envs)@ == old(envs)@.with(env, name@, Expression::Value(Value::NativeCall(op))),
        final(envs).count == old(envs).count,
        final(envs).parents == old(envs).parents,
{
    envs.set(env, String::from_str(name), Expression::Value(Value::NativeCall(op)));
}

pub open spec fn native_binding(env: usize, op: NativeOp) -> (usize, Seq<char>, Expression) {
    (env, native_name(op), Expression::Value(Value::NativeCall(op)))
}

/// What [`load_native_calls`] binds in `env`, newest first.
pub open spec fn root_bindings(env: usize) -> Seq<(usize, Seq<char>, Expression)> {
    seq![
        native_binding(env, NativeOp::Sum),
        native_binding(env, NativeOp::Subtract),
        native_binding(env, NativeOp::Multiply),
        native_binding(env, NativeOp::Divide),
        native_binding(env, NativeOp::Pow),
        native_binding(env, NativeOp::Eq),
        native_binding(env, NativeOp::Ne),
        native_binding(env, NativeOp::Gt),
        native_binding(env, NativeOp::Lt),
        native_binding(env, NativeOp::Ge),
        native_binding(env, NativeOp::Le),
        native_binding(env, NativeOp::Begin),
        native_binding(env, NativeOp::List),
    ]
}

/// Binds every native under its name in `env`.
pub fn load_native_calls(envs: &mut Envs, env: usize)
    ensures
        final(envs)@.parents == old(envs)@.parents,
        final(envs).count == old(envs).count,
        final(envs)@.bindings == root_bindings(env) + old(envs)@.bindings,
{
    let ghost b0 = envs@.bindings;
    bind_native(envs, env, "list", NativeOp::List);
    bind_native(envs, env, "begin", NativeOp::Begin);
    bind_native(envs, env, "<=", NativeOp::Le);
    bind_native(envs, env, ">=", NativeOp::Ge);
    bind_native(envs, env, "<", NativeOp::Lt);
    bind_native(envs, env, ">", NativeOp::Gt);
    bind_native(envs, env, "!=", NativeOp::Ne);
    bind_native(envs, env, "=", NativeOp::Eq);
    bind_native(envs, env, "pow", NativeOp::Pow);
    bind_native(envs, env, "/", NativeOp::Divide);
    bind_native(envs, env, "*", NativeOp::Multiply);
    bind_native(envs, env, "-", NativeOp::Subtract);
    bind_native(envs, env, "+", NativeOp::Sum);
    proof {
        assert(envs@.bindings =~= root_bindings(env) + b0);
    }
}

/// The environments of a fresh interpreter: environment 0, with the natives.
pub open spec fn root_scopes() -> Scopes {
    Scopes { parents: seq![None::<usize>], bindings: root_bindings(0) }
}

/// A fresh store whose environment 0 holds the natives.
pub fn create_env() -> (r: Envs)
    ensures
        r.wf(),
        r@ == root_scopes(),
{
    let mut envs = Envs::new();
    load_native_calls(&mut envs, 0);
    proof {
        assert(envs@.bindings =~= root_bindings(0));
    }
    envs
}

/// Evaluates list `expr` as one application in `env`, with at most `fuel`
/// steps: the result and the environments are what [`run`] gives for some
/// answers the float unit may give.
pub fn iamlisp_eval_list<F: Floats>(expr: &List<Expression>, env: usize, envs: &mut Envs, fuel: u64, fu: &F) -> (r: Result<Expression, EvalError>)
    requires
        old(envs).wf(),
    ensures
        exists|answers: Answers| settles(#[trigger] run(start(*expr, env, old(envs)@), fuel as nat, answers), r, final(envs)@),
        final(envs).wf(),
{
    let mut store = Envs { count: 0, parents: List::new(), bindings: List::new() };
    std::mem::swap(&mut store, envs);
    let mut stack = List::new();
    stack.push_top(Frame { input: crate::eval::types::copy_list(expr), output: List::new(), env, binds: false });
    let mut m = Machine { stack, envs: store, ret: Expression::Value(Value::Nil) };
    let r = m.run(fuel, fu);
    std::mem::swap(&mut m.envs, envs);
    r
}

/// Evaluates one expression in `env`, as [`eval_one`] says.
pub fn iamlisp_eval<F: Floats>(expr: &Expression, env: usize, envs: &mut Envs, fuel: u64, fu: &F) -> (r: Result<Expression, EvalError>)
    requires
        old(envs).wf(),
    ensures
        exists|answers: Answers| settles(#[trigger] eval_one(*expr, env, old(envs)@, fuel as nat, answers), r, final(envs)@),
        final(envs).wf(),
{
    match expr {
        Expression::List(l) => {
            let ghost e0 = envs@;
            let r = iamlisp_eval_list(l, env, envs, fuel, fu);
            proof {
                let a = choose|a: Answers| settles(#[trigger] run(start(**l, env, e0), fuel as nat, a), r, envs@);
                assert(eval_one(*expr, env, e0, fuel as nat, a) == run(start(**l, env, e0), fuel as nat, a));
            }
            r
        },
        _ => {
            let r = match expr {
                Expression::Symbol(n) => get_from_env(n, env, envs),
                Expression::Dot => Err(EvalError::DotOutsidePattern),
                _ => Ok(expr.copy()),
            };
            proof {
                assert(settles(eval_one(*expr, env, envs@, fuel as nat, Seq::empty()), r, envs@));
            }
            r
        },
    }
}

/// The value of `name` in `env`, or the error that it is unbound.
pub fn get_from_env(name: &String, env: usize, envs: &Envs) -> (r: Result<Expression, EvalError>)
    ensures
        envs@.lookup(env, name@) matches Some(v) ==> r == Ok::<Expression, EvalError>(v),
        envs@.lookup(env, name@) is None ==> r == Err::<Expression, EvalError>(EvalError::Unbound(*name)),
{
    match envs.get(env, name) {
        Some(v) => Ok(v),
        None => Err(EvalError::Unbound(name.clone())),
    }
}

/// Evaluates the expressions in order in `env`, each with at most `fuel`
/// steps, and returns the last value, or `Nil` for none; an error stops the
/// rest, and what the earlier expressions did stays done.
pub fn eval<F: Floats>(expressions: &List<Expression>, env: usize, envs: &mut Envs, fuel: u64, fu: &F) -> (r: Result<Expression, EvalError>)
    requires
        old(envs).wf(),
    ensures
        exists|answers: Seq<Answers>| settles(#[trigger] eval_all(expressions@, env, old(envs)@, fuel as nat, nil(), answers), r, final(envs)@),
        final(envs).wf(),
{
    let mut last = Expression::Value(Value::Nil);
    let mut cursor = expressions;
    let ghost mut used: Seq<Answers> = Seq::empty();
    let ghost e0 = old(envs)@;
    proof {
        assert forall|future: Seq<Answers>| #[trigger] eval_all(expressions@, env, e0, fuel as nat, nil(), used + future) == eval_all(cursor@, env, envs@, fuel as nat, last, future) by {
            assert(used + future =~= future);
        }
    }
    while !cursor.is_empty()
        invariant
            envs.wf(),
            e0 == old(envs)@,
            forall|future: Seq<Answers>| #[trigger] eval_all(expressions@, env, e0, fuel as nat, nil(), used + future) == eval_all(cursor@, env, envs@, fuel as nat, last, future),
        decreases cursor@.len(),
    {
        let e = cursor.head().unwrap();
        let ghost before_envs = envs@;
        let ghost before = cursor@;
        let res = iamlisp_eval(e, env, envs, fuel, fu);
        let ghost got = choose|a: Answers| settles(#[trigger] eval_one(*e, env, before_envs, fuel as nat, a), res, envs@);
        proof {
            assert forall|future: Seq<Answers>| #[trigger] eval_all(expressions@, env, e0, fuel as nat, nil(), used.push(got) + future) == eval_all(before, env, before_envs, fuel as nat, last, seq![got] + future) by {
                assert(used.push(got) + future =~= used + (seq![got] + future));
                assert(eval_all(expressions@, env, e0, fuel as nat, nil(), used + (seq![got] + future)) == eval_all(before, env, before_envs, fuel as nat, last, seq![got] + future));
                assert((seq![got] + future)[0] == got);
                assert((seq![got] + future).drop_first() =~= future);
            }
            used = used.push(got);
        }
        match res {
            Ok(v) => {
                proof {
                    assert(before[0] == *e);
                    assert(eval_one(before[0], env, before_envs, fuel as nat, got) == Outcome::Value(v, envs@));
                    assert forall|future: Seq<Answers>| #[trigger] eval_all(before, env, before_envs, fuel as nat, last, seq![got] + future) == eval_all(before.drop_first(), env, envs@, fuel as nat, v, future) by {
                        assert((seq![got] + future)[0] == got);
                        assert((seq![got] + future).drop_first() =~= future);
                    }
                }
                last = v;
            },
            Err(x) => {
                proof {
                    let z = Seq::<Answers>::empty();
                    assert(used + z =~= used);
                    assert(eval_all(expressions@, env, e0, fuel as nat, nil(), used + z) == eval_all(before, env, before_envs, fuel as nat, last, seq![got] + z));
                }
                return Err(x);
            },
        }
        cursor = cursor.tail();
        proof {
            assert(cursor@ == before.drop_first());
        }
    }
    proof {
        let z = Seq::<Answers>::empty();
        assert(used + z =~= used);
        assert(eval_all(expressions@, env, e0, fuel as nat, nil(), used + z) == eval_all(cursor@, env, envs@, fuel as nat, last, z));
    }
    Ok(last)
}

impl Machine {
    /// A step of `def`, or of the bindings of a `loop` or a `recur`.
    fn binder_step(&mut self, f: Frame, literal: bool) -> (r: Result<(), EvalError>)
        requires
            old(self).envs.wf(),
            f.output@.len() == 0 ==> f.input@.len() > 0,
        ensures
            follows(binder_step(f, old(self).stack, old(self)@.envs, old(self).ret, literal), final(self)@, r),
            final(self).envs.wf(),
            final(self).envs.count == old(self).envs.count,
    {
        let mut f = f;
        let n = small_len(&f.output);
        if n == 0 {
            match f.input.shift() {
                Some(kw) => {
                    let out = single(kw);
                    proof {
                        List::lemma_from_seq_view(f.input);
                    }
                    self.next_pair(Frame { input: f.input, output: out, env: f.env, binds: literal }, literal)
                },
                None => Err(EvalError::Syntax),
            }
        } else if n == 1 {
            self.next_pair(f, literal)
        } else if n == 3 {
            let kw = f.output.shift().unwrap();
            let pat = f.output.shift().unwrap();
            let val = f.output.shift().unwrap();
            match assign_env_values(&mut self.envs, f.env, pat, val) {
                Ok(()) => {
                    let out = single(kw);
                    proof {
                        List::lemma_from_seq_view(f.input);
                    }
                    self.next_pair(Frame { input: f.input, output: out, env: f.env, binds: literal }, literal)
                },
                Err(x) => Err(x),
            }
        } else {
            Err(EvalError::Syntax)
        }
    }
}

} // verus!
