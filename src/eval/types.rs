use crate::data::list::List;
use vstd::prelude::*;

verus! {

/// The built-in operations bound in the root environment.
#[derive(PartialEq, Eq, Structural, Clone, Copy, Debug)]
pub enum NativeOp {
    Sum,
    Subtract,
    Multiply,
    Divide,
    Pow,
    Eq,
    Ne,
    Gt,
    Lt,
    Ge,
    Le,
    Begin,
    List,
}

/// Atoms and callables.
///
/// A float is held as its IEEE-754 bit pattern; float arithmetic is done by a
/// [`crate::eval::native::Floats`] unit that the host supplies.
#[derive(Debug, PartialEq)]
pub enum Value {
    Int64(i64),
    Float64(u64),
    String(String),
    Bool(bool),
    Nil,
    NativeCall(NativeOp),
    /// A closure: parameter patterns, body, and the environment it captured.
    Lambda { env: usize, args: Box<List<Expression>>, body: Box<List<Expression>> },
    Macro { args: Box<List<Expression>>, body: Box<List<Expression>> },
    /// The `recur` operator of a `loop`: its patterns, its body, the loop's
    /// environment and the stack depth at which the loop was entered.
    Recur { env: usize, args: Box<List<Expression>>, body: Box<List<Expression>>, depth: usize },
}

/// Program text and runtime values share one tree.
#[derive(Debug, PartialEq)]
pub enum Expression {
    Value(Value),
    List(Box<List<Expression>>),
    Symbol(String),
    /// Marks the rest position inside a parameter pattern.
    Dot,
}

/// Why an evaluation stopped.
#[derive(Debug, PartialEq)]
pub enum EvalError {
    Unbound(String),
    NotCallable,
    NotEnoughValues,
    TooManyValues,
    RestNotSingle,
    DestructNonList(List<Expression>),
    InvalidName,
    DotOutsidePattern,
    Type,
    DivisionByZero,
    Overflow,
    TooFewArguments,
    Arity,
    Syntax,
    NotImplemented,
    OutOfFuel,
}

impl Expression {
    /// An exact copy of the tree.
    pub fn copy(&self) -> (r: Expression)
        ensures
            r == *self,
        decreases self,
    {
        match self {
            Expression::Value(v) => Expression::Value(v.copy()),
            Expression::List(l) => Expression::List(Box::new(copy_list(l))),
            Expression::Symbol(s) => Expression::Symbol(s.clone()),
            Expression::Dot => Expression::Dot,
        }
    }
}

impl Value {
    pub fn copy(&self) -> (r: Value)
        ensures
            r == *self,
        decreases self,
    {
        match self {
            Value::Int64(i) => Value::Int64(*i),
            Value::Float64(f) => Value::Float64(*f),
            Value::String(s) => Value::String(s.clone()),
            Value::Bool(b) => Value::Bool(*b),
            Value::Nil => Value::Nil,
            Value::NativeCall(op) => Value::NativeCall(*op),
            Value::Lambda { env, args, body } => Value::Lambda {
                env: *env,
                args: Box::new(copy_list(args)),
                body: Box::new(copy_list(body)),
            },
            Value::Macro { args, body } => Value::Macro {
                args: Box::new(copy_list(args)),
                body: Box::new(copy_list(body)),
            },
            Value::Recur { env, args, body, depth } => Value::Recur {
                env: *env,
                args: Box::new(copy_list(args)),
                body: Box::new(copy_list(body)),
                depth: *depth,
            },
        }
    }
}

/// An exact copy of a list of expressions.
pub fn copy_list(l: &List<Expression>) -> (r: List<Expression>)
    ensures
        r == *l,
    decreases l,
{
    match l {
        List::Empty => List::Empty,
        List::Normal { car, cdr } => List::Normal {
            car: car.copy(),
            cdr: Box::new(copy_list(cdr)),
        },
    }
}

} // verus!
