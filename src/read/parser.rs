use crate::data::list::List;
use crate::eval::native::Floats;
use crate::eval::types::{Expression, Value};
use crate::read::tokenizer::{lex_from, tokenize, LexError, Reader, Token};
use vstd::prelude::*;

verus! {

#[derive(Debug, Clone, PartialEq)]
pub enum ParseError {
    /// A token that cannot stand where it is: a stray `)`, or a reserved mark.
    UnexpectedToken,
    /// The program ended inside a list.
    UnexpectedEnd,
}

#[derive(Debug, Clone, PartialEq)]
pub enum ReadError {
    Lex(LexError),
    Parse(ParseError),
}

/// The expression an atom token stands for.
pub open spec fn token_expr(t: Token) -> Option<Expression> {
    match t {
        Token::Symbol(n) => Some(Expression::Symbol(n)),
        Token::String(x) => Some(Expression::Value(Value::String(x))),
        Token::Int64(i) => Some(Expression::Value(Value::Int64(i))),
        Token::Float64(b) => Some(Expression::Value(Value::Float64(b))),
        Token::Boolean(b) => Some(Expression::Value(Value::Bool(b))),
        Token::Nil => Some(Expression::Value(Value::Nil)),
        Token::Dot => Some(Expression::Dot),
        _ => None,
    }
}

/// `open` with `e` added to its innermost list.
pub open spec fn add_inner(open: Seq<Seq<Expression>>, e: Expression) -> Seq<Seq<Expression>> {
    open.update(open.len() - 1, open.last().push(e))
}

/// Parsing `ts[i..]` with the lists `open` under construction: the first is
/// the top level, the last the innermost list not yet closed.
pub open spec fn parse_from(ts: Seq<Token>, i: int, open: Seq<Seq<Expression>>) -> Result<Seq<Expression>, ParseError>
    decreases ts.len() - i,
{
    if open.len() == 0 {
        Err(ParseError::UnexpectedEnd)
    } else if i < 0 || i >= ts.len() {
        if open.len() == 1 {
            Ok(open[0])
        } else {
            Err(ParseError::UnexpectedEnd)
        }
    } else {
        match ts[i] {
            Token::LeftParen => parse_from(ts, i + 1, open.push(Seq::empty())),
            Token::RightParen => if open.len() <= 1 {
                Err(ParseError::UnexpectedToken)
            } else {
                parse_from(
                    ts,
                    i + 1,
                    add_inner(open.drop_last(), Expression::List(Box::new(List::from_seq(open.last())))),
                )
            },
            t => match token_expr(t) {
                Some(e) => parse_from(ts, i + 1, add_inner(open, e)),
                None => Err(ParseError::UnexpectedToken),
            },
        }
    }
}

/// The top-level expressions that tokens `ts` spell.
pub open spec fn parse(ts: Seq<Token>) -> Result<Seq<Expression>, ParseError> {
    parse_from(ts, 0, seq![Seq::empty()])
}

fn token_expr_exec(t: &Token) -> (r: Option<Expression>)
    ensures
        r == token_expr(*t),
{
    match t {
        Token::Symbol(n) => Some(Expression::Symbol(n.clone())),
        Token::String(x) => Some(Expression::Value(Value::String(x.clone()))),
        Token::Int64(i) => Some(Expression::Value(Value::Int64(*i))),
        Token::Float64(b) => Some(Expression::Value(Value::Float64(*b))),
        Token::Boolean(b) => Some(Expression::Value(Value::Bool(*b))),
        Token::Nil => Some(Expression::Value(Value::Nil)),
        Token::Dot => Some(Expression::Dot),
        _ => None,
    }
}

pub open spec fn open_view(v: Seq<List<Expression>>) -> Seq<Seq<Expression>> {
    v.map_values(|l: List<Expression>| l@)
}

/// Builds the expressions that `tokens` spell, as [`parse`] says.
pub fn parse_tokens(tokens: &Vec<Token>) -> (r: Result<List<Expression>, ParseError>)
    ensures
        parse(tokens@) matches Ok(es) ==> r matches Ok(l) && l@ == es,
        parse(tokens@) matches Err(x) ==> r == Err::<List<Expression>, ParseError>(x),
{
    let mut open: Vec<List<Expression>> = Vec::new();
    open.push(List::new());
    let mut i: usize = 0;
    proof {
        assert(open_view(open@) =~= seq![Seq::<Expression>::empty()]);
    }
    while i < tokens.len()
        invariant
            i <= tokens@.len(),
            open@.len() >= 1,
            parse(tokens@) == parse_from(tokens@, i as int, open_view(open@)),
        decreases tokens@.len() - i,
    {
        let ghost ov = open_view(open@);
        match &tokens[i] {
            Token::LeftParen => {
                open.push(List::new());
                proof {
                    assert(open_view(open@) =~= ov.push(Seq::empty()));
                }
            },
            Token::RightParen => {
                if open.len() <= 1 {
                    return Err(ParseError::UnexpectedToken);
                }
                let inner = open.pop().unwrap();
                let mut top = open.pop().unwrap();
                proof {
                    List::lemma_from_seq_view(inner);
                }
                top.push(Expression::List(Box::new(inner)));
                open.push(top);
                proof {
                    assert(open_view(open@) =~= add_inner(ov.drop_last(), Expression::List(Box::new(List::from_seq(ov.last())))));
                }
            },
            t => match token_expr_exec(t) {
                Some(e) => {
                    let mut top = open.pop().unwrap();
                    top.push(e);
                    open.push(top);
                    proof {
                        assert(open_view(open@) =~= add_inner(ov, e));
                    }
                },
                None => {
                    return Err(ParseError::UnexpectedToken);
                },
            },
        }
        i = i + 1;
    }
    if open.len() == 1 {
        Ok(open.pop().unwrap())
    } else {
        Err(ParseError::UnexpectedEnd)
    }
}

/// Reads a whole program: its tokens, then the expressions they spell.
pub fn compile<F: Floats>(program: &Vec<char>, fu: &F) -> (r: Result<List<Expression>, ReadError>)
    ensures
        lex_from(program@, 0) matches Err(e) ==> r == Err::<List<Expression>, ReadError>(ReadError::Lex(e)),
        lex_from(program@, 0) is Ok ==> exists|ts: Seq<Token>|
            {
                &&& crate::read::tokenizer::all_fit(ts, lex_from(program@, 0)->Ok_0)
                &&& (parse(ts) matches Ok(es) ==> r matches Ok(l) && l@ == es)
                &&& (parse(ts) matches Err(x) ==> r == Err::<List<Expression>, ReadError>(ReadError::Parse(x)))
            },
{
    let mut reader = Reader::new(program);
    match tokenize(&mut reader, fu) {
        Ok(tokens) => match parse_tokens(&tokens) {
            Ok(l) => Ok(l),
            Err(x) => Err(ReadError::Parse(x)),
        },
        Err(e) => Err(ReadError::Lex(e)),
    }
}

} // verus!
