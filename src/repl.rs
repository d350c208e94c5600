use crate::data::list::List;
use crate::eval::env::Envs;
use crate::eval::eval::{eval_all, nil, Answers, Outcome};
use crate::eval::native::Floats;
use crate::eval::show::{items_with, show_with, to_text, write_items};
use crate::eval::types::{EvalError, Expression};
use crate::read::parser::{compile, parse, ParseError, ReadError};
use crate::read::tokenizer::{all_fit, lex_from, LexError, Token};
use vstd::prelude::*;
use vstd::string::StringExecFns;

verus! {

/// What an evaluation error says; `texts` are the float unit's texts for the
/// floats of a pattern that is written out.
pub open spec fn eval_message(e: EvalError, texts: Seq<Seq<char>>) -> Seq<char> {
    match e {
        EvalError::Unbound(n) => "Symbol "@ + n@ + " is not defined"@,
        EvalError::NotCallable => "Expression is not callable"@,
        EvalError::NotEnoughValues => "Not enough values to fill-up all arguments"@,
        EvalError::TooManyValues => "Too many values to fill-up the arguments"@,
        EvalError::RestNotSingle => "Rest argument can be only one"@,
        EvalError::DestructNonList(p) => "Unable to destruct non-list to symbols list: "@ + seq!['('] + items_with(p, texts) + seq![')'],
        EvalError::InvalidName => "Not a valid variable name"@,
        EvalError::DotOutsidePattern => "Dot is allowed only in argument lists"@,
        EvalError::Type => "Function not implemented for this kind of arguments"@,
        EvalError::DivisionByZero => "Division by zero"@,
        EvalError::Overflow => "Integer overflow"@,
        EvalError::TooFewArguments => "Too few arguments given"@,
        EvalError::Arity => "Wrong number of arguments to recur"@,
        EvalError::Syntax => "Malformed special form"@,
        EvalError::NotImplemented => "Macro calls are not implemented"@,
        EvalError::OutOfFuel => "Step limit reached"@,
    }
}

/// What a read error says.
pub open spec fn read_message(e: ReadError) -> Seq<char> {
    match e {
        ReadError::Lex(LexError::UnterminatedString) => "Unexpected end of input on reading string"@,
        ReadError::Parse(ParseError::UnexpectedToken) => "Compile error: unexpected token"@,
        ReadError::Parse(ParseError::UnexpectedEnd) => "Compile error: unexpected end of program while reading list"@,
    }
}

impl EvalError {
    /// The error in words, as [`eval_message`] says for the texts the float
    /// unit gives.
    pub fn message<F: Floats>(&self, fu: &F) -> (r: String)
        ensures
            exists|texts: Seq<Seq<char>>| r@ == #[trigger] eval_message(*self, texts),
    {
        let text = match self {
            EvalError::Unbound(n) => {
                let mut s = String::from_str("Symbol ");
                s.append(n.as_str());
                s.append(" is not defined");
                proof {
                    assert(s@ == eval_message(*self, Seq::empty()));
                }
                return s;
            },
            EvalError::DestructNonList(p) => {
                let mut s = String::from_str("Unable to destruct non-list to symbols list: (");
                let t = write_items(&mut s, p, fu);
                s.append(")");
                proof {
                    reveal_strlit("Unable to destruct non-list to symbols list: (");
                    reveal_strlit("Unable to destruct non-list to symbols list: ");
                    reveal_strlit(")");
                    assert(s@ =~= eval_message(*self, t@));
                }
                return s;
            },
            EvalError::NotCallable => "Expression is not callable",
            EvalError::NotEnoughValues => "Not enough values to fill-up all arguments",
            EvalError::TooManyValues => "Too many values to fill-up the arguments",
            EvalError::RestNotSingle => "Rest argument can be only one",
            EvalError::InvalidName => "Not a valid variable name",
            EvalError::DotOutsidePattern => "Dot is allowed only in argument lists",
            EvalError::Type => "Function not implemented for this kind of arguments",
            EvalError::DivisionByZero => "Division by zero",
            EvalError::Overflow => "Integer overflow",
            EvalError::TooFewArguments => "Too few arguments given",
            EvalError::Arity => "Wrong number of arguments to recur",
            EvalError::Syntax => "Malformed special form",
            EvalError::NotImplemented => "Macro calls are not implemented",
            EvalError::OutOfFuel => "Step limit reached",
        };
        let r = String::from_str(text);
        proof {
            assert(r@ == eval_message(*self, Seq::empty()));
        }
        r
    }
}

impl ReadError {
    /// The error in words, as [`read_message`] says.
    pub fn message(&self) -> (r: String)
        ensures
            r@ == read_message(*self),
    {
        let text = match self {
            ReadError::Lex(LexError::UnterminatedString) => "Unexpected end of input on reading string",
            ReadError::Parse(ParseError::UnexpectedToken) => "Compile error: unexpected token",
            ReadError::Parse(ParseError::UnexpectedEnd) => "Compile error: unexpected end of program while reading list",
        };
        String::from_str(text)
    }
}

/// Reads `program`, evaluates its expressions in the root environment 0 with
/// at most `fuel` steps each, and writes the last value, or the error.
pub fn eval<F: Floats>(program: &Vec<char>, envs: &mut Envs, fuel: u64, fu: &F) -> (r: Result<String, String>)
    requires
        old(envs).wf(),
    ensures
        final(envs).wf(),
        lex_from(program@, 0) matches Err(e) ==> (r matches Err(m) && m@ == read_message(ReadError::Lex(e))),
        lex_from(program@, 0) is Ok ==> exists|ts: Seq<Token>|
            {
                &&& all_fit(ts, lex_from(program@, 0)->Ok_0)
                &&& (parse(ts) matches Err(x) ==> (r matches Err(m) && m@ == read_message(ReadError::Parse(x))))
                &&& (parse(ts) matches Ok(es) ==> exists|answers: Seq<Answers>|
                    match #[trigger] eval_all(es, 0, old(envs)@, fuel as nat, nil(), answers) {
                        Outcome::Value(v, after) => final(envs)@ == after && (r matches Ok(t) && exists|texts: Seq<Seq<char>>|
                            t@ == #[trigger] show_with(v, texts)),
                        Outcome::Error(x, after) => final(envs)@ == after && (r matches Err(m) && exists|texts: Seq<Seq<char>>|
                            m@ == #[trigger] eval_message(x, texts)),
                        Outcome::Host => false,
                    })
            },
{
    let expressions = match compile(program, fu) {
        Ok(l) => l,
        Err(e) => {
            return Err(e.message());
        },
    };
    proof {
        List::lemma_from_seq_view(expressions);
    }
    match crate::eval::eval::eval(&expressions, 0, envs, fuel, fu) {
        Ok(v) => Ok(to_text(&v, fu)),
        Err(x) => Err(x.message(fu)),
    }
}

} // verus!
