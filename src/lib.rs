//! An interpreter for a small Lisp: cons lists, a character reader, and an
//! explicit-stack evaluator whose steps are specified as a state machine.
pub mod data;
pub mod eval;
pub mod read;
pub mod repl;

pub use data::list::List;
