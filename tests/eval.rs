use iamlisp::data::list::List;
use iamlisp::eval::env::Envs;
use iamlisp::eval::eval::{create_env, iamlisp_eval_list};
use iamlisp::eval::native::{apply_native, Floats};
use iamlisp::eval::types::{EvalError, Expression, NativeOp, Value};

const FUEL: u64 = 1_000_000;

struct HostFloats;

impl Floats for HostFloats {
    fn from_int(&self, i: i64) -> u64 {
        (i as f64).to_bits()
    }
    fn add(&self, a: u64, b: u64) -> u64 {
        (f64::from_bits(a) + f64::from_bits(b)).to_bits()
    }
    fn sub(&self, a: u64, b: u64) -> u64 {
        (f64::from_bits(a) - f64::from_bits(b)).to_bits()
    }
    fn mul(&self, a: u64, b: u64) -> u64 {
        (f64::from_bits(a) * f64::from_bits(b)).to_bits()
    }
    fn div(&self, a: u64, b: u64) -> u64 {
        (f64::from_bits(a) / f64::from_bits(b)).to_bits()
    }
    fn neg(&self, a: u64) -> u64 {
        (-f64::from_bits(a)).to_bits()
    }
    fn pow(&self, a: u64, b: u64) -> u64 {
        f64::from_bits(a).powf(f64::from_bits(b)).to_bits()
    }
    fn less(&self, a: u64, b: u64) -> bool {
        f64::from_bits(a) < f64::from_bits(b)
    }
    fn equal(&self, a: u64, b: u64) -> bool {
        f64::from_bits(a) == f64::from_bits(b)
    }
    fn parse(&self, text: &String) -> Option<u64> {
        text.parse::<f64>().ok().map(f64::to_bits)
    }
    fn show(&self, x: u64) -> String {
        format!("{}", f64::from_bits(x))
    }
}

fn sym(name: &str) -> Expression {
    Expression::Symbol(name.to_string())
}

fn int64(i: i64) -> Expression {
    Expression::Value(Value::Int64(i))
}

fn float(x: f64) -> Expression {
    Expression::Value(Value::Float64(x.to_bits()))
}

fn boolean(b: bool) -> Expression {
    Expression::Value(Value::Bool(b))
}

fn list(items: Vec<Expression>) -> List<Expression> {
    List::from_vec(items)
}

fn nested(items: Vec<Expression>) -> Expression {
    Expression::List(Box::new(list(items)))
}

fn run(expr: &List<Expression>, envs: &mut Envs) -> Result<Expression, EvalError> {
    iamlisp_eval_list(expr, 0, envs, FUEL, &HostFloats)
}

fn native(op: NativeOp, args: Vec<Expression>) -> Result<Expression, EvalError> {
    apply_native(op, &list(args), &HostFloats)
}

#[test]
fn test_eval_empty_list_into_empty_list() {
    let mut env = create_env();
    let expr = list(vec![]);

    let result = run(&expr, &mut env).unwrap();

    assert_eq!(Expression::List(Box::new(list(vec![]))), result)
}

#[test]
fn test_eval_nested_sum() {
    let mut env = create_env();
    let exp1 = nested(vec![sym("+"), int64(2), int64(3)]);
    let exp2 = list(vec![sym("+"), exp1, int64(10)]);

    let result = run(&exp2, &mut env).unwrap();

    assert_eq!(int64(15), result)
}

#[test]
fn test_lambda_definition() {
    let mut env = create_env();
    let expression = list(vec![
        sym("lambda"),
        nested(vec![sym("a")]),
        nested(vec![sym("+"), sym("a"), int64(3)]),
    ]);

    let result = run(&expression, &mut env).unwrap();

    assert_eq!(
        Expression::Value(Value::Lambda {
            args: Box::new(list(vec![sym("a")])),
            body: Box::new(list(vec![nested(vec![sym("+"), sym("a"), int64(3)])])),
            env: 0,
        }),
        result
    )
}

#[test]
fn test_lambda_call() {
    let mut env = create_env();
    let lambda = nested(vec![
        sym("lambda"),
        nested(vec![sym("a")]),
        nested(vec![sym("+"), sym("a"), sym("a")]),
    ]);
    let expression = list(vec![lambda, int64(10)]);

    let result = run(&expression, &mut env).unwrap();

    assert_eq!(int64(20), result);
}

#[test]
fn test_macro_definition() {
    let mut env = create_env();
    let expression = list(vec![
        sym("macro"),
        nested(vec![sym("a")]),
        nested(vec![sym("+"), sym("a"), int64(3)]),
    ]);

    let result = run(&expression, &mut env).unwrap();

    assert_eq!(
        Expression::Value(Value::Macro {
            args: Box::new(list(vec![sym("a")])),
            body: Box::new(list(vec![nested(vec![sym("+"), sym("a"), int64(3)])])),
        }),
        result
    )
}

#[test]
fn test_def_definition() {
    let mut env = create_env();
    let expression = list(vec![
        sym("def"),
        sym("a"),
        nested(vec![sym("+"), int64(1), int64(2)]),
        sym("b"),
        nested(vec![sym("*"), sym("a"), int64(2)]),
    ]);

    let result = run(&expression, &mut env).unwrap();

    assert_eq!(Expression::Value(Value::Nil), result);

    assert_eq!(Some(int64(3)), env.get(0, &"a".to_string()));
    assert_eq!(Some(int64(6)), env.get(0, &"b".to_string()));
}

#[test]
fn test_cond_expression_basic() {
    let mut env = create_env();

    {
        let expression = list(vec![
            sym("cond"),
            nested(vec![sym("begin"), boolean(true)]),
            nested(vec![sym("begin"), int64(10)]),
            nested(vec![sym("begin"), int64(20)]),
        ]);

        let result = run(&expression, &mut env).unwrap();

        assert_eq!(int64(10), result);
    };

    {
        let expression = list(vec![
            sym("cond"),
            nested(vec![sym("begin"), boolean(false)]),
            nested(vec![sym("begin"), int64(10)]),
            nested(vec![sym("begin"), int64(20)]),
        ]);

        let result = run(&expression, &mut env).unwrap();

        assert_eq!(int64(20), result);
    };
}

#[test]
fn test_cond_expression_opposite_not_evaluated() {
    let mut env = create_env();
    let expression = list(vec![
        sym("cond"),
        nested(vec![sym("begin"), boolean(true)]),
        nested(vec![sym("begin"), int64(10)]),
        nested(vec![sym("def"), sym("a"), int64(20)]),
    ]);

    let result = run(&expression, &mut env).unwrap();

    assert_eq!(int64(10), result);

    assert_eq!(None, env.get(0, &"a".to_string()));
}

#[test]
fn test_quote_special_symbol() {
    let mut env = create_env();
    let expr = list(vec![sym("quote"), nested(vec![sym("+"), sym("a"), sym("b")])]);

    let result = run(&expr, &mut env).unwrap();

    assert_eq!(nested(vec![sym("+"), sym("a"), sym("b")]), result);
}

#[test]
fn empty_list_construct() {
    assert_eq!(
        Expression::List(Box::new(list(vec![]))),
        native(NativeOp::List, vec![]).unwrap()
    );
}

#[test]
fn list_construct() {
    assert_eq!(
        nested(vec![int64(10), float(10.0)]),
        native(NativeOp::List, vec![int64(10), float(10.0)]).unwrap()
    );
}

#[test]
fn test_negate_number() {
    assert_eq!(int64(-10), native(NativeOp::Subtract, vec![int64(10)]).unwrap());

    assert_eq!(float(-10.0), native(NativeOp::Subtract, vec![float(10.0)]).unwrap());
}

#[test]
fn test_subtract_two_numbers() {
    // i64 - i64
    assert_eq!(int64(-1), native(NativeOp::Subtract, vec![int64(2), int64(3)]).unwrap());

    // f64 - f64
    assert_eq!(float(-0.5), native(NativeOp::Subtract, vec![float(2.5), float(3.0)]).unwrap());

    // f64 - i64
    assert_eq!(float(-0.5), native(NativeOp::Subtract, vec![float(2.5), int64(3)]).unwrap());

    // i64 - f64: any float makes the result a float
    assert_eq!(float(2.0 - 3.2), native(NativeOp::Subtract, vec![int64(2), float(3.2)]).unwrap());
}

#[test]
fn test_multiply_two_numbers() {
    // i64 * i64
    assert_eq!(int64(6), native(NativeOp::Multiply, vec![int64(2), int64(3)]).unwrap());

    // f64 * f64
    assert_eq!(float(8.0), native(NativeOp::Multiply, vec![float(2.5), float(3.2)]).unwrap());

    // f64 * i64
    assert_eq!(float(7.5), native(NativeOp::Multiply, vec![float(2.5), int64(3)]).unwrap());

    // i64 * f64: any float makes the result a float
    assert_eq!(float(2.0 * 3.2), native(NativeOp::Multiply, vec![int64(2), float(3.2)]).unwrap());
}

#[test]
fn test_divide_two_numbers() {
    // i64 / i64
    assert_eq!(int64(5), native(NativeOp::Divide, vec![int64(10), int64(2)]).unwrap());

    // f64 / f64
    assert_eq!(float(2.0), native(NativeOp::Divide, vec![float(1.0), float(0.5)]).unwrap());

    // f64 / i64
    assert_eq!(float(2.5), native(NativeOp::Divide, vec![float(5.0), int64(2)]).unwrap());

    // i64 / f64: any float makes the result a float
    assert_eq!(float(5.0), native(NativeOp::Divide, vec![int64(10), float(2.0)]).unwrap());
}

#[test]
fn test_pow() {
    // i64 ^ i64
    assert_eq!(int64(8), native(NativeOp::Pow, vec![int64(2), int64(3)]).unwrap());

    // f64 ^ f64
    assert_eq!(float(8.0), native(NativeOp::Pow, vec![float(2.0), float(3.0)]).unwrap());
}

#[test]
fn native_integer_errors() {
    assert_eq!(Err(EvalError::DivisionByZero), native(NativeOp::Divide, vec![int64(1), int64(0)]));
    assert_eq!(Err(EvalError::Overflow), native(NativeOp::Sum, vec![int64(i64::MAX), int64(1)]));
    assert_eq!(Err(EvalError::Overflow), native(NativeOp::Subtract, vec![int64(i64::MIN)]));
    assert_eq!(Err(EvalError::Overflow), native(NativeOp::Divide, vec![int64(i64::MIN), int64(-1)]));
    assert_eq!(Err(EvalError::Overflow), native(NativeOp::Pow, vec![int64(2), int64(63)]));
    assert_eq!(int64(i64::MIN), native(NativeOp::Pow, vec![int64(-2), int64(63)]).unwrap());
    assert_eq!(int64(-1), native(NativeOp::Pow, vec![int64(-1), int64(7)]).unwrap());
    assert_eq!(Err(EvalError::Type), native(NativeOp::Sum, vec![]));
    assert_eq!(Err(EvalError::Type), native(NativeOp::Sum, vec![int64(1), boolean(true)]));
    assert_eq!(Err(EvalError::Type), native(NativeOp::Pow, vec![int64(2)]));
    assert_eq!(int64(-3), native(NativeOp::Divide, vec![int64(-7), int64(2)]).unwrap());
}

#[test]
fn native_comparisons_chain() {
    assert_eq!(boolean(true), native(NativeOp::Lt, vec![int64(1), int64(2), int64(3)]).unwrap());
    assert_eq!(boolean(false), native(NativeOp::Lt, vec![int64(1), int64(3), int64(2)]).unwrap());
    assert_eq!(boolean(true), native(NativeOp::Ge, vec![int64(3), int64(3), int64(1)]).unwrap());
    assert_eq!(boolean(true), native(NativeOp::Ne, vec![int64(1), int64(2)]).unwrap());
    assert_eq!(
        boolean(true),
        native(
            NativeOp::Eq,
            vec![Expression::Value(Value::String("a".to_string())), Expression::Value(Value::String("a".to_string()))]
        )
        .unwrap()
    );
    assert_eq!(boolean(false), native(NativeOp::Eq, vec![boolean(true), boolean(false)]).unwrap());
    assert_eq!(boolean(true), native(NativeOp::Gt, vec![float(2.5), float(1.0)]).unwrap());
    assert_eq!(Err(EvalError::TooFewArguments), native(NativeOp::Eq, vec![int64(1)]));
    assert_eq!(Err(EvalError::Type), native(NativeOp::Lt, vec![boolean(true), boolean(false)]));
}

#[test]
fn begin_returns_last_or_nil() {
    assert_eq!(int64(3), native(NativeOp::Begin, vec![int64(1), int64(2), int64(3)]).unwrap());
    assert_eq!(Expression::Value(Value::Nil), native(NativeOp::Begin, vec![]).unwrap());
}

#[test]
fn dot_outside_pattern_is_an_error() {
    let mut env = create_env();
    let expr = list(vec![sym("list"), Expression::Dot]);

    assert_eq!(Err(EvalError::DotOutsidePattern), run(&expr, &mut env));
}

#[test]
fn unbound_and_not_callable() {
    let mut env = create_env();

    assert_eq!(Err(EvalError::Unbound("nope".to_string())), run(&list(vec![sym("nope")]), &mut env));
    assert_eq!(Err(EvalError::NotCallable), run(&list(vec![int64(1), int64(2)]), &mut env));
}

#[test]
fn loop_recur_counts_down() {
    let mut env = create_env();
    // (loop (n 5 acc 0) (cond (= n 0) acc (recur (- n 1) (+ acc n))))
    let expr = list(vec![
        sym("loop"),
        nested(vec![sym("n"), int64(5), sym("acc"), int64(0)]),
        nested(vec![
            sym("cond"),
            nested(vec![sym("="), sym("n"), int64(0)]),
            sym("acc"),
            nested(vec![
                sym("recur"),
                nested(vec![sym("-"), sym("n"), int64(1)]),
                nested(vec![sym("+"), sym("acc"), sym("n")]),
            ]),
        ]),
    ]);

    assert_eq!(int64(15), run(&expr, &mut env).unwrap());
    assert_eq!(None, env.get(0, &"n".to_string()));
}

#[test]
fn recur_arity_is_checked() {
    let mut env = create_env();
    let expr = list(vec![
        sym("loop"),
        nested(vec![sym("n"), int64(1)]),
        nested(vec![sym("recur"), int64(1), int64(2)]),
    ]);

    assert_eq!(Err(EvalError::Arity), run(&expr, &mut env));
}

#[test]
fn deep_loop_runs_in_bounded_stack() {
    let mut env = create_env();
    let expr = list(vec![
        sym("loop"),
        nested(vec![sym("n"), int64(2000)]),
        nested(vec![
            sym("cond"),
            nested(vec![sym("="), sym("n"), int64(0)]),
            sym("n"),
            nested(vec![sym("recur"), nested(vec![sym("-"), sym("n"), int64(1)])]),
        ]),
    ]);

    assert_eq!(int64(0), iamlisp_eval_list(&expr, 0, &mut env, 100_000_000, &HostFloats).unwrap());
}

#[test]
fn fuel_runs_out() {
    let mut env = create_env();
    let expr = list(vec![sym("+"), int64(1), int64(2)]);

    assert_eq!(Err(EvalError::OutOfFuel), iamlisp_eval_list(&expr, 0, &mut env, 2, &HostFloats));
}

#[test]
fn macro_calls_are_not_implemented() {
    let mut env = create_env();
    let expr = list(vec![
        nested(vec![sym("macro"), nested(vec![sym("a")]), sym("a")]),
        int64(1),
    ]);

    assert_eq!(Err(EvalError::NotImplemented), run(&expr, &mut env));
}

#[test]
fn float_division_by_zero_is_an_error() {
    assert_eq!(Err(EvalError::DivisionByZero), native(NativeOp::Divide, vec![float(1.0), float(0.0)]));
    assert_eq!(Err(EvalError::DivisionByZero), native(NativeOp::Divide, vec![float(1.0), float(-0.0)]));
    assert_eq!(Err(EvalError::DivisionByZero), native(NativeOp::Divide, vec![float(1.0), int64(0)]));
    assert_eq!(Err(EvalError::Type), native(NativeOp::Sum, vec![float(1.0), boolean(true)]));
    assert_eq!(float(3.5), native(NativeOp::Sum, vec![int64(1), float(2.5)]).unwrap());
}

#[test]
fn float_comparisons_chain_on_the_unit_answers() {
    assert_eq!(boolean(true), native(NativeOp::Lt, vec![float(1.0), float(2.0), float(3.0)]).unwrap());
    assert_eq!(boolean(false), native(NativeOp::Lt, vec![float(3.0), float(1.0), boolean(true)]).unwrap());
    assert_eq!(Err(EvalError::Type), native(NativeOp::Lt, vec![float(1.0), float(2.0), boolean(true)]));
    assert_eq!(boolean(true), native(NativeOp::Eq, vec![float(0.5), float(0.5)]).unwrap());
}

#[test]
fn failed_def_keeps_earlier_pairs() {
    let mut env = create_env();
    let expr = list(vec![sym("def"), sym("a"), int64(1), sym("b"), sym("missing")]);

    assert_eq!(Err(EvalError::Unbound("missing".to_string())), run(&expr, &mut env));
    assert_eq!(Some(int64(1)), env.get(0, &"a".to_string()));
    assert_eq!(None, env.get(0, &"b".to_string()));
}

#[test]
fn integer_results_are_exact_when_they_fit() {
    assert_eq!(int64(i64::MAX), native(NativeOp::Sum, vec![int64(i64::MAX), int64(1), int64(-1)]).unwrap());
    assert_eq!(int64(0), native(NativeOp::Multiply, vec![int64(i64::MAX), int64(2), int64(0)]).unwrap());
    assert_eq!(int64(1 << 62), native(NativeOp::Divide, vec![int64(i64::MIN), int64(-1), int64(2)]).unwrap());
    assert_eq!(int64(i64::MIN), native(NativeOp::Multiply, vec![int64(i64::MIN), int64(-1), int64(-1)]).unwrap());
    assert_eq!(int64(i64::MIN), native(NativeOp::Subtract, vec![int64(-1), int64(i64::MAX)]).unwrap());
    assert_eq!(Err(EvalError::Overflow), native(NativeOp::Sum, vec![int64(i64::MAX), int64(1)]));
    assert_eq!(Err(EvalError::Overflow), native(NativeOp::Multiply, vec![int64(i64::MIN), int64(-1)]));
    assert_eq!(Err(EvalError::Overflow), native(NativeOp::Multiply, vec![int64(1 << 40), int64(1 << 40), int64(3)]));
    assert_eq!(Err(EvalError::DivisionByZero), native(NativeOp::Divide, vec![int64(i64::MIN), int64(-1), int64(0)]));
}
