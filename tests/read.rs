use iamlisp::data::list::List;
use iamlisp::eval::native::Floats;
use iamlisp::eval::types::{Expression, Value};
use iamlisp::read::parser::{compile, ParseError, ReadError};
use iamlisp::read::read;
use iamlisp::read::tokenizer::{tokenize, LexError, Reader, Token};

struct HostFloats;

impl Floats for HostFloats {
    fn from_int(&self, i: i64) -> u64 {
        (i as f64).to_bits()
    }
    fn add(&self, a: u64, b: u64) -> u64 {
        (f64::from_bits(a) + f64::from_bits(b)).to_bits()
    }
    fn sub(&self, a: u64, b: u64) -> u64 {
        (f64::from_bits(a) - f64::from_bits(b)).to_bits()
    }
    fn mul(&self, a: u64, b: u64) -> u64 {
        (f64::from_bits(a) * f64::from_bits(b)).to_bits()
    }
    fn div(&self, a: u64, b: u64) -> u64 {
        (f64::from_bits(a) / f64::from_bits(b)).to_bits()
    }
    fn neg(&self, a: u64) -> u64 {
        (-f64::from_bits(a)).to_bits()
    }
    fn pow(&self, a: u64, b: u64) -> u64 {
        f64::from_bits(a).powf(f64::from_bits(b)).to_bits()
    }
    fn less(&self, a: u64, b: u64) -> bool {
        f64::from_bits(a) < f64::from_bits(b)
    }
    fn equal(&self, a: u64, b: u64) -> bool {
        f64::from_bits(a) == f64::from_bits(b)
    }
    fn parse(&self, text: &String) -> Option<u64> {
        text.parse::<f64>().ok().map(f64::to_bits)
    }
    fn show(&self, x: u64) -> String {
        format!("{}", f64::from_bits(x))
    }
}

fn sym(name: &str) -> Expression {
    Expression::Symbol(name.to_string())
}

fn nested(items: Vec<Expression>) -> Expression {
    Expression::List(Box::new(List::from_vec(items)))
}

fn value(v: Value) -> Expression {
    Expression::Value(v)
}

fn read_program(program: &str) -> Result<List<Expression>, ReadError> {
    let chars: Vec<char> = program.chars().collect();
    compile(&chars, &HostFloats)
}

fn lex(program: &str) -> Result<Vec<Token>, LexError> {
    let chars: Vec<char> = program.chars().collect();
    let mut reader = Reader::new(&chars);
    tokenize(&mut reader, &HostFloats)
}

#[test]
fn read_nested_lists() {
    let program = r#"(() ()) ()"#;

    assert_eq!(
        List::from_vec(vec![nested(vec![nested(vec![]), nested(vec![])]), nested(vec![])]),
        read_program(program).unwrap()
    );
}

#[test]
fn read_boolean() {
    assert_eq!(List::from_vec(vec![value(Value::Bool(true))]), read_program("true").unwrap());
    assert_eq!(List::from_vec(vec![value(Value::Bool(false))]), read_program("false").unwrap());
}

#[test]
fn read_int() {
    assert_eq!(List::from_vec(vec![value(Value::Int64(0))]), read_program("0").unwrap());
    assert_eq!(List::from_vec(vec![value(Value::Int64(10))]), read_program("10").unwrap());
    assert_eq!(List::from_vec(vec![value(Value::Int64(-10))]), read_program("-10").unwrap());
}

#[test]
fn read_float() {
    assert_eq!(List::from_vec(vec![value(Value::Float64(0.0f64.to_bits()))]), read_program("0.0").unwrap());
    assert_eq!(List::from_vec(vec![value(Value::Float64(10.0f64.to_bits()))]), read_program("10.0").unwrap());
    assert_eq!(List::from_vec(vec![value(Value::Float64((-10.0f64).to_bits()))]), read_program("-10.0").unwrap());
}

#[test]
fn mod_read_string() {
    assert_eq!(List::from_vec(vec![value(Value::String("".to_string()))]), read_program(r#""""#).unwrap());

    assert_eq!(
        List::from_vec(vec![value(Value::String("hello world".to_string()))]),
        read_program(r#""hello world""#).unwrap()
    );
}

#[test]
fn mod_read_symbol() {
    assert_eq!(List::from_vec(vec![sym("foo"), sym("bar")]), read_program("foo bar").unwrap());
}

#[test]
fn mod_read_whole_program() {
    let program = r#"(+ (foo 1 "hello") 12.5)"#;

    assert_eq!(
        List::from_vec(vec![nested(vec![
            sym("+"),
            nested(vec![sym("foo"), value(Value::Int64(1)), value(Value::String("hello".to_string()))]),
            value(Value::Float64(12.5f64.to_bits())),
        ])]),
        read_program(program).unwrap()
    );
}

#[test]
fn tokenize_read_whole_program() {
    let program = r#"(+ (foo . "hello") 12.5 44 true false)"#;

    assert_eq!(
        Ok(vec![
            Token::LeftParen,
            Token::Symbol("+".to_owned()),
            Token::LeftParen,
            Token::Symbol("foo".to_owned()),
            Token::Dot,
            Token::String("hello".to_owned()),
            Token::RightParen,
            Token::Float64(12.5f64.to_bits()),
            Token::Int64(44),
            Token::Boolean(true),
            Token::Boolean(false),
            Token::RightParen
        ]),
        lex(program)
    );
}

#[test]
fn read_empty_program() {
    assert_eq!(Ok(vec![]), lex(""));
}

#[test]
fn read_parens() {
    assert_eq!(Ok(vec![Token::LeftParen, Token::RightParen]), lex("()"));
}

#[test]
fn tokenizer_read_string() {
    assert_eq!(Ok(vec![Token::String("hello world".to_string())]), lex("\"hello world\""));
}

#[test]
fn read_escaped_string() {
    assert_eq!(
        Ok(vec![Token::String("program \"lisp\"".to_string())]),
        lex("\"program \\\"lisp\\\"\"")
    );
}

#[test]
fn tokenizer_read_symbol() {
    assert_eq!(
        Ok(vec![
            Token::Symbol("foo".to_string()),
            Token::Symbol("bar".to_string()),
            Token::Symbol("baz".to_string()),
            Token::Dot,
            Token::Int64(123),
            Token::Float64(11.22f64.to_bits()),
            Token::Boolean(true),
            Token::Boolean(false),
        ]),
        lex("foo bar baz . 123 11.22 true false")
    );
}

#[test]
fn tokenizer_read_whole_program() {
    assert_eq!(
        Ok(vec![
            Token::LeftParen,
            Token::Symbol("+".to_string()),
            Token::LeftParen,
            Token::Symbol("foo".to_string()),
            Token::Int64(1),
            Token::String("hello".to_string()),
            Token::RightParen,
            Token::Float64(12.5f64.to_bits()),
            Token::RightParen
        ]),
        lex("(+ (foo 1 \"hello\") 12.5)")
    );
}

#[test]
fn lexer_skips_comments_and_reads_marks() {
    assert_eq!(
        Ok(vec![
            Token::LeftBracket,
            Token::RightBracket,
            Token::LeftSquareBracket,
            Token::RightSquareBracket,
            Token::Caret,
            Token::SingleQuote,
            Token::Sharp,
            Token::Int64(7),
        ]),
        lex("{}[]^'# ; a comment ( \n 7 ; trailing")
    );
    assert_eq!(Ok(vec![Token::Int64(5)]), lex("+5"));
    assert_eq!(Ok(vec![Token::Symbol("-".to_string())]), lex("-"));
}

#[test]
fn only_float_shaped_atoms_reach_the_float_unit() {
    assert_eq!(Ok(vec![Token::Symbol("+".to_string())]), lex("+"));
    assert_eq!(Ok(vec![Token::Symbol("foo".to_string())]), lex("foo"));
    assert_eq!(Ok(vec![Token::Symbol("e".to_string())]), lex("e"));
    assert_eq!(Ok(vec![Token::Float64(1000.0f64.to_bits())]), lex("1e3"));
    assert_eq!(Ok(vec![Token::Float64(f64::INFINITY.to_bits())]), lex("Inf"));
    assert_eq!(Ok(vec![Token::Symbol("1.2.3".to_string())]), lex("1.2.3"));
}

#[test]
fn nil_reads_as_the_unit_value() {
    assert_eq!(Ok(vec![Token::Nil]), lex("Nil"));
    assert_eq!(List::from_vec(vec![value(Value::Nil)]), read_program("Nil").unwrap());
}

#[test]
fn backslash_escapes_only_a_quote() {
    assert_eq!(Ok(vec![Token::String("a\\b".to_string())]), lex("\"a\\b\""));
    assert_eq!(Err(LexError::UnterminatedString), lex("\"a\\\\\""));
}

#[test]
fn unterminated_string_is_a_lex_error() {
    assert_eq!(Err(LexError::UnterminatedString), lex("\"abc"));
    assert_eq!(Err(ReadError::Lex(LexError::UnterminatedString)), read_program("(list \"abc\\\""));
}

#[test]
fn unbalanced_parens_are_parse_errors() {
    assert_eq!(Err(ReadError::Parse(ParseError::UnexpectedToken)), read_program(")"));
    assert_eq!(Err(ReadError::Parse(ParseError::UnexpectedEnd)), read_program("(+ 1 2"));
    assert_eq!(Err(ReadError::Parse(ParseError::UnexpectedToken)), read_program("[1]"));
}

#[test]
fn reader_cursor_walks_the_text() {
    let chars: Vec<char> = "ab".chars().collect();
    let mut reader = read::Reader::new(&chars);

    assert_eq!(Some(&'a'), reader.current());
    assert!(!reader.is_eof());
    reader.next();
    assert_eq!(Some(&'b'), reader.current());
    reader.next();
    assert!(reader.is_eof());
    assert_eq!(None, reader.current());

    let mut cursor = Reader::new(&chars);
    assert_eq!(Some(&'a'), cursor.current_char());
    cursor.goto_next_char();
    assert_eq!(Some(&'b'), cursor.current_char());
}
