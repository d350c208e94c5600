use iamlisp::eval::env::Envs;
use iamlisp::eval::eval::create_env;
use iamlisp::eval::native::Floats;
use iamlisp::eval::types::{Expression, Value};
use iamlisp::repl;

struct HostFloats;

impl Floats for HostFloats {
    fn from_int(&self, i: i64) -> u64 {
        (i as f64).to_bits()
    }
    fn add(&self, a: u64, b: u64) -> u64 {
        (f64::from_bits(a) + f64::from_bits(b)).to_bits()
    }
    fn sub(&self, a: u64, b: u64) -> u64 {
        (f64::from_bits(a) - f64::from_bits(b)).to_bits()
    }
    fn mul(&self, a: u64, b: u64) -> u64 {
        (f64::from_bits(a) * f64::from_bits(b)).to_bits()
    }
    fn div(&self, a: u64, b: u64) -> u64 {
        (f64::from_bits(a) / f64::from_bits(b)).to_bits()
    }
    fn neg(&self, a: u64) -> u64 {
        (-f64::from_bits(a)).to_bits()
    }
    fn pow(&self, a: u64, b: u64) -> u64 {
        f64::from_bits(a).powf(f64::from_bits(b)).to_bits()
    }
    fn less(&self, a: u64, b: u64) -> bool {
        f64::from_bits(a) < f64::from_bits(b)
    }
    fn equal(&self, a: u64, b: u64) -> bool {
        f64::from_bits(a) == f64::from_bits(b)
    }
    fn parse(&self, text: &String) -> Option<u64> {
        text.parse::<f64>().ok().map(f64::to_bits)
    }
    fn show(&self, x: u64) -> String {
        format!("{}", f64::from_bits(x))
    }
}

fn eval(program: &str, env: &mut Envs) -> Result<String, String> {
    let chars: Vec<char> = program.chars().collect();
    repl::eval(&chars, env, 1_000_000, &HostFloats)
}

fn lookup(env: &Envs, name: &str) -> Option<Expression> {
    env.get(0, &name.to_string())
}

#[test]
fn test_primitives() {
    let table = vec![
        ("1", "1"),
        ("1.5", "1.5"),
        (r#""string""#, r#""string""#),
        (r#""string\"string""#, r#""string\"string""#),
        ("true", "true"),
        ("false", "false"),
        ("", "Nil"),
        ("Nil", "Nil"),
    ];
    let mut env = create_env();

    for (program, expected_result) in table {
        let result = eval(program, &mut env).unwrap();

        assert_eq!(result, expected_result);
    }
}

#[test]
fn test_list_constructor() {
    let table = vec![
        ("()", "()"),
        ("(list)", "()"),
        (r#"(list 1 2.5 "hello" true false)"#, r#"(1 2.5 "hello" true false)"#),
    ];
    let mut env = create_env();

    for (program, expected_result) in table {
        let result = eval(program, &mut env).unwrap();

        assert_eq!(result, expected_result);
    }
}

#[test]
fn test_math() {
    let table = vec![
        ("(+ 1 2)", "3"),
        ("(+ 2.5 3.5)", "6"),
        ("(- 10 6)", "4"),
        ("(- 10.5 3.5)", "7"),
        ("(* 2 3)", "6"),
        ("(* 2.5 3.5)", "8.75"),
        ("(/ 10 2)", "5"),
        ("(/ 10.0 4.0)", "2.5"),
    ];
    let mut env = create_env();

    for (program, expected_result) in table {
        let result = eval(program, &mut env).unwrap();

        assert_eq!(result, expected_result);
    }
}

#[test]
fn test_lambda() {
    let mut env = create_env();

    // Declare lambda
    eval("(def f (lambda (x y) (+ x y)))", &mut env).unwrap();

    let table = vec![
        ("f", Ok("(lambda (x y) (+ x y))")),
        ("(f 2 3)", Ok("5")),
        ("(f (f 2 6) 3)", Ok("11")),
        ("(f)", Err("Not enough values to fill-up all arguments")),
    ];

    for (program, expected_result) in table {
        let result = eval(program, &mut env);

        assert_eq!(
            result,
            expected_result.map(|str| str.to_string()).map_err(|str| str.to_string()),
            "{}",
            program,
        );
    }

    // Test varargs support
    assert_eq!(eval("((lambda (x . ys) x) 1 2 3 4)", &mut env).unwrap(), "1");
    assert_eq!(eval("((lambda (x . ys) ys) 1 2 3 4)", &mut env).unwrap(), "(2 3 4)");
}

#[test]
fn test_lambda_env_not_leaking() {
    let mut env = create_env();

    eval("(def f (lambda (x) (def a 10) a))", &mut env).unwrap();

    let result = eval("(f 10)", &mut env).unwrap();

    assert_eq!(lookup(&env, "x"), None);
    assert_eq!(lookup(&env, "a"), None);
    assert_eq!(result, "10")
}

#[test]
fn test_def_expression() {
    let mut env = create_env();

    eval("(def x 10)", &mut env).unwrap();
    eval("(def y (list 10 20 30))", &mut env).unwrap();

    assert_eq!(eval("x", &mut env).unwrap(), "10");
    assert_eq!(eval("y", &mut env).unwrap(), "(10 20 30)");

    eval("(def (a b c) (list 10 20 30))", &mut env).unwrap();

    assert_eq!(eval("a", &mut env).unwrap(), "10");
    assert_eq!(eval("b", &mut env).unwrap(), "20");
    assert_eq!(eval("c", &mut env).unwrap(), "30");

    eval("(def (d . e) (list 10 20 30))", &mut env).unwrap();

    assert_eq!(eval("d", &mut env).unwrap(), "10");
    assert_eq!(eval("e", &mut env).unwrap(), "(20 30)");

    assert_eq!(
        eval("(def (d . e f) (list 10 20 30))", &mut env).err(),
        Some("Rest argument can be only one".to_string())
    );
    assert_eq!(
        eval("(def (d . e) 0)", &mut env).err(),
        Some("Unable to destruct non-list to symbols list: (d . e)".to_string())
    );
}

#[test]
fn scenario_atoms_and_empty_program() {
    let mut env = create_env();

    assert_eq!(eval("1", &mut env).unwrap(), "1");
    assert_eq!(eval("1.5", &mut env).unwrap(), "1.5");
    assert_eq!(eval("true", &mut env).unwrap(), "true");
    assert_eq!(eval("", &mut env).unwrap(), "Nil");
}

#[test]
fn scenario_list_of_mixed_atoms() {
    let mut env = create_env();

    assert_eq!(
        eval(r#"(list 1 2.5 "hello" true false)"#, &mut env).unwrap(),
        r#"(1 2.5 "hello" true false)"#
    );
}

#[test]
fn scenario_arithmetic() {
    let mut env = create_env();

    assert_eq!(eval("(+ 1 2)", &mut env).unwrap(), "3");
    assert_eq!(eval("(- 10.5 3.5)", &mut env).unwrap(), "7");
    assert_eq!(eval("(* 2.5 3.5)", &mut env).unwrap(), "8.75");
    assert_eq!(eval("(/ 10.0 4.0)", &mut env).unwrap(), "2.5");
    assert_eq!(eval("(/ 1 0)", &mut env).err(), Some("Division by zero".to_string()));
}

#[test]
fn scenario_lambda_nesting_and_arity() {
    let mut env = create_env();

    eval("(def f (lambda (x y) (+ x y)))", &mut env).unwrap();
    assert_eq!(eval("(f (f 2 6) 3)", &mut env).unwrap(), "11");
    assert_eq!(eval("(f)", &mut env).err(), Some("Not enough values to fill-up all arguments".to_string()));
    assert_eq!(eval("(f 1 2 3)", &mut env).err(), Some("Too many values to fill-up the arguments".to_string()));
}

#[test]
fn scenario_destructuring_def() {
    let mut env = create_env();

    eval("(def (a b c) (list 10 20 30))", &mut env).unwrap();
    assert_eq!(eval("a", &mut env).unwrap(), "10");
    assert_eq!(eval("b", &mut env).unwrap(), "20");
    assert_eq!(eval("c", &mut env).unwrap(), "30");
    eval("(def (d . e) (list 10 20 30))", &mut env).unwrap();
    assert_eq!(eval("e", &mut env).unwrap(), "(20 30)");
}

#[test]
fn scenario_def_inside_lambda_stays_local() {
    let mut env = create_env();

    eval("(def f (lambda (x) (def a 10) a))", &mut env).unwrap();
    assert_eq!(eval("(f 10)", &mut env).unwrap(), "10");
    assert_eq!(lookup(&env, "a"), None);
}

#[test]
fn scenario_cond_skips_unchosen_body() {
    let mut env = create_env();

    assert_eq!(eval("(cond true 10 (def a 20))", &mut env).unwrap(), "10");
    assert_eq!(lookup(&env, "a"), None);
    assert_eq!(eval("(cond false (def a 20) 30)", &mut env).unwrap(), "30");
    assert_eq!(lookup(&env, "a"), None);
    assert_eq!(eval("(cond false 1)", &mut env).unwrap(), "Nil");
}

#[test]
fn scenario_rest_parameter() {
    let mut env = create_env();

    assert_eq!(eval("((lambda (x . ys) ys) 1 2 3 4)", &mut env).unwrap(), "(2 3 4)");
}

#[test]
fn closure_captures_its_environment() {
    let mut env = create_env();

    eval("(def make (lambda (n) (lambda (m) (+ n m))))", &mut env).unwrap();
    eval("(def add5 (make 5))", &mut env).unwrap();
    assert_eq!(eval("(add5 10)", &mut env).unwrap(), "15");
    assert_eq!(lookup(&env, "n"), None);
    assert_eq!(lookup(&env, "m"), None);
}

#[test]
fn destructuring_rest_law_on_values() {
    let mut env = create_env();

    eval("(def (p q . r) (list 1 2 3 4))", &mut env).unwrap();
    assert_eq!(eval("p", &mut env).unwrap(), "1");
    assert_eq!(eval("q", &mut env).unwrap(), "2");
    assert_eq!(eval("r", &mut env).unwrap(), "(3 4)");
    eval("(def (s t . u) (list 1 2))", &mut env).unwrap();
    assert_eq!(eval("u", &mut env).unwrap(), "()");
    assert_eq!(
        eval("(def (v w . x) (list 1))", &mut env).err(),
        Some("Not enough values to fill-up all arguments".to_string())
    );
}

#[test]
fn determinism_on_fresh_environments() {
    let program = "(def f (lambda (n) (loop (i n acc 1) (cond (= i 0) acc (recur (- i 1) (* acc i)))))) (f 10)";
    let mut first = create_env();
    let mut second = create_env();

    let a = eval(program, &mut first);
    let b = eval(program, &mut second);

    assert_eq!(a, b);
    assert_eq!(a.unwrap(), "3628800");
}

#[test]
fn printed_atoms_read_back() {
    let mut env = create_env();

    for text in ["0", "-42", "9223372036854775807", "-9223372036854775808", "true", "false", "Nil", "2.5"] {
        let printed = eval(text, &mut env).unwrap();
        assert_eq!(printed, text);
        assert_eq!(eval(&printed, &mut env).unwrap(), text);
    }
}

#[test]
fn list_keeps_evaluated_order() {
    let mut env = create_env();

    assert_eq!(eval("(list (+ 1 1) (* 2 2) (- 7 1))", &mut env).unwrap(), "(2 4 6)");
}

#[test]
fn quote_and_errors_in_words() {
    let mut env = create_env();

    assert_eq!(eval("(quote (a b))", &mut env).unwrap(), "(a b)");
    assert_eq!(eval("(quote)", &mut env).unwrap(), "Nil");
    assert_eq!(eval("zzz", &mut env).err(), Some("Symbol zzz is not defined".to_string()));
    assert_eq!(eval("(1 2)", &mut env).err(), Some("Expression is not callable".to_string()));
    assert_eq!(eval("(\"abc", &mut env).err(), Some("Unexpected end of input on reading string".to_string()));
    assert_eq!(eval(")", &mut env).err(), Some("Compile error: unexpected token".to_string()));
    assert_eq!(eval("(+ 1", &mut env).err(), Some("Compile error: unexpected end of program while reading list".to_string()));
    assert_eq!(eval("(def 1 2)", &mut env).err(), Some("Not a valid variable name".to_string()));
    assert_eq!(eval("(def a)", &mut env).err(), Some("Malformed special form".to_string()));
    assert_eq!(eval("(+ 1 true)", &mut env).err(), Some("Function not implemented for this kind of arguments".to_string()));
    assert_eq!(eval("(< 1)", &mut env).err(), Some("Too few arguments given".to_string()));
    assert_eq!(eval("(- 9223372036854775807 -1)", &mut env).err(), Some("Integer overflow".to_string()));
    assert_eq!(eval("(list .)", &mut env).err(), Some("Dot is allowed only in argument lists".to_string()));
    assert_eq!(eval("((macro (a) a) 1)", &mut env).err(), Some("Macro calls are not implemented".to_string()));
    assert_eq!(eval("(loop (n 1) (recur 1 2))", &mut env).err(), Some("Wrong number of arguments to recur".to_string()));
    assert_eq!(eval("+", &mut env).unwrap(), "+");
    assert_eq!(eval("(quote \"a\\\\b\")", &mut env).unwrap(), "\"a\\\\b\"");
    assert_eq!(lookup(&env, "+").is_some(), true);
    assert_eq!(lookup(&env, "begin"), Some(Expression::Value(Value::NativeCall(iamlisp::eval::types::NativeOp::Begin))));
}

#[test]
fn recur_passes_values_without_evaluating_them_again() {
    let mut env = create_env();

    assert_eq!(
        eval("(loop (xs (list 1 2) n 0) (cond (= n 3) xs (recur xs (+ n 1))))", &mut env).unwrap(),
        "(1 2)"
    );
    assert_eq!(
        eval("(loop (s (quote foo) n 0) (cond (= n 2) s (recur s (+ n 1))))", &mut env).unwrap(),
        "foo"
    );
    assert_eq!(eval("(loop (n 3) (cond (= n 0) (quote done) (recur (- n 1))))", &mut env).unwrap(), "done");
}

#[test]
fn failed_program_keeps_earlier_effects() {
    let mut env = create_env();

    assert_eq!(eval("(def a 1) (def b missing)", &mut env).err(), Some("Symbol missing is not defined".to_string()));
    assert_eq!(eval("a", &mut env).unwrap(), "1");
    assert_eq!(eval("(def (p q . r) (list 1))", &mut env).err(), Some("Not enough values to fill-up all arguments".to_string()));
    assert_eq!(lookup(&env, "r"), None);
}

#[test]
fn floats_mix_and_divide_by_zero() {
    let mut env = create_env();

    assert_eq!(eval("(+ 1 2.5)", &mut env).unwrap(), "3.5");
    assert_eq!(eval("(/ 1.0 0)", &mut env).err(), Some("Division by zero".to_string()));
    assert_eq!(eval("(< 1.5 2.5 3.5)", &mut env).unwrap(), "true");
}
