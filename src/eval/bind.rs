use crate::data::list::List;
use crate::eval::env::{Envs, Scopes};
use crate::eval::types::{EvalError, Expression};
use vstd::prelude::*;

verus! {

/// Binding pattern `pat` to `val` in environment `e`.
///
/// A symbol binds the whole value; a list pattern takes a list value element
/// by element, and a pattern after a dot takes what is left of it. An error
/// comes with the store as it stands then: the bindings made before it stay.
pub open spec fn bind(envs: Scopes, e: usize, pat: Expression, val: Expression) -> Result<Scopes, (EvalError, Scopes)>
    decreases pat,
{
    match pat {
        Expression::Symbol(n) => Ok(envs.with(e, n@, val)),
        Expression::List(ps) => match val {
            Expression::List(vs) => bind_list(envs, e, *ps, *vs),
            _ => Err((EvalError::DestructNonList(*ps), envs)),
        },
        _ => Err((EvalError::InvalidName, envs)),
    }
}

/// Binding the patterns `ps` to the values `vs`, left to right.
pub open spec fn bind_list(envs: Scopes, e: usize, ps: List<Expression>, vs: List<Expression>) -> Result<Scopes, (EvalError, Scopes)>
    decreases ps,
{
    match ps {
        List::Empty => match vs {
            List::Empty => Ok(envs),
            _ => Err((EvalError::TooManyValues, envs)),
        },
        List::Normal { car, cdr } => match car {
            Expression::Dot => match *cdr {
                List::Normal { car: rest, cdr: after } => match *after {
                    List::Empty => bind(envs, e, rest, Expression::List(Box::new(vs))),
                    _ => Err((EvalError::RestNotSingle, envs)),
                },
                List::Empty => Err((EvalError::RestNotSingle, envs)),
            },
            _ => match vs {
                List::Empty => Err((EvalError::NotEnoughValues, envs)),
                List::Normal { car: v, cdr: more } => match bind(envs, e, car, v) {
                    Ok(envs2) => bind_list(envs2, e, *cdr, *more),
                    Err(x) => Err(x),
                },
            },
        },
    }
}

/// Binds `pat` to `val` in `e`, as [`bind`] says, errors included.
pub fn assign_env_values(envs: &mut Envs, e: usize, pat: Expression, val: Expression) -> (r: Result<(), EvalError>)
    ensures
        bind(old(envs)@, e, pat, val) matches Ok(n) ==> r is Ok && final(envs)@ == n,
        bind(old(envs)@, e, pat, val) matches Err((x, n)) ==> r == Err::<(), EvalError>(x) && final(envs)@ == n,
        final(envs).count == old(envs).count,
        final(envs).parents == old(envs).parents,
    decreases pat,
{
    match pat {
        Expression::Symbol(n) => {
            envs.set(e, n, val);
            Ok(())
        },
        Expression::List(ps) => match val {
            Expression::List(vs) => assign_list(envs, e, *ps, *vs),
            _ => Err(EvalError::DestructNonList(*ps)),
        },
        _ => Err(EvalError::InvalidName),
    }
}

pub fn assign_list(envs: &mut Envs, e: usize, ps: List<Expression>, vs: List<Expression>) -> (r: Result<(), EvalError>)
    ensures
        bind_list(old(envs)@, e, ps, vs) matches Ok(n) ==> r is Ok && final(envs)@ == n,
        bind_list(old(envs)@, e, ps, vs) matches Err((x, n)) ==> r == Err::<(), EvalError>(x) && final(envs)@ == n,
        final(envs).count == old(envs).count,
        final(envs).parents == old(envs).parents,
    decreases ps,
{
    match ps {
        List::Empty => match vs {
            List::Empty => Ok(()),
            _ => Err(EvalError::TooManyValues),
        },
        List::Normal { car, cdr } => match car {
            Expression::Dot => match *cdr {
                List::Normal { car: rest, cdr: after } => match *after {
                    List::Empty => assign_env_values(envs, e, rest, Expression::List(Box::new(vs))),
                    _ => Err(EvalError::RestNotSingle),
                },
                List::Empty => Err(EvalError::RestNotSingle),
            },
            _ => match vs {
                List::Empty => Err(EvalError::NotEnoughValues),
                List::Normal { car: v, cdr: more } => {
                    let first = assign_env_values(envs, e, car, v);
                    match first {
                        Ok(()) => assign_list(envs, e, *cdr, *more),
                        Err(x) => Err(x),
                    }
                },
            },
        },
    }
}

} // verus!
