use foo_lang::{evaluate, parse, BinOp, EvalError, Expr, Op, Program};

fn run_program(p: &Program) -> f64 {
    let mut vals: Vec<f64> = Vec::new();
    for op in &p.ops {
        let v = match op {
            Op::Lit(d) => d.parse::<f64>().unwrap(),
            Op::Neg(a) => -vals[*a],
            Op::Bin(BinOp::Add, a, b) => vals[*a] + vals[*b],
            Op::Bin(BinOp::Sub, a, b) => vals[*a] - vals[*b],
            Op::Bin(BinOp::Mul, a, b) => vals[*a] * vals[*b],
            Op::Bin(BinOp::Div, a, b) => vals[*a] / vals[*b],
        };
        vals.push(v);
    }
    vals[p.result]
}

fn value_of(src: &str) -> f64 {
    let e = parse(src).expect("parses");
    run_program(&evaluate(&e).expect("evaluates"))
}

fn error_of(src: &str) -> EvalError {
    let e = parse(src).expect("parses");
    match evaluate(&e) {
        Ok(_) => panic!("evaluation should fail"),
        Err(x) => x,
    }
}

#[test]
fn multiplication_binds_tighter() {
    assert_eq!(value_of("2+3*4"), 14.0);
    assert_eq!(value_of("(2+3)*4"), 20.0);
}

#[test]
fn double_negation() {
    assert_eq!(value_of("--3"), 3.0);
    assert_eq!(value_of("-(2-5)"), 3.0);
}

#[test]
fn operators_associate_left() {
    assert_eq!(value_of("10-4-3"), 3.0);
    assert_eq!(value_of("8/4/2"), 1.0);
}

#[test]
fn subtraction_tree_shape() {
    let e = parse("1-2-3").unwrap();
    match e {
        Expr::Binary(BinOp::Sub, l, r) => {
            assert!(matches!(*l, Expr::Binary(BinOp::Sub, _, _)));
            assert!(matches!(*r, Expr::Num(ref d) if d == "3"));
        }
        _ => panic!("expected a subtraction"),
    }
}

#[test]
fn division_by_zero_is_not_an_error() {
    assert!(value_of("1/0").is_infinite());
    assert!(value_of("0/0").is_nan());
}

#[test]
fn let_binding() {
    assert_eq!(value_of("let x = 5; x + 1"), 6.0);
}

#[test]
fn shadowing_takes_the_latest() {
    assert_eq!(value_of("let x = 1; let x = 2; x"), 2.0);
}

#[test]
fn undefined_variable() {
    match error_of("bar") {
        EvalError::UndefinedVariable { name } => assert_eq!(name, "bar"),
        other => panic!("unexpected {:?}", other),
    }
}

#[test]
fn function_call() {
    assert_eq!(value_of("fn add a b = a + b; add(2,3)"), 5.0);
}

#[test]
fn arity_mismatch() {
    match error_of("fn add a b = a + b; add(2)") {
        EvalError::ArityMismatch { name, expected, found } => {
            assert_eq!(name, "add");
            assert_eq!(expected, 2);
            assert_eq!(found, 1);
        }
        other => panic!("unexpected {:?}", other),
    }
}

#[test]
fn function_sees_caller_variables() {
    assert_eq!(value_of("let x = 10; fn f a = a + x; f(1)"), 11.0);
}

#[test]
fn undefined_function() {
    match error_of("foo(1,2)") {
        EvalError::UndefinedFunction { name } => assert_eq!(name, "foo"),
        other => panic!("unexpected {:?}", other),
    }
}

#[test]
fn argument_error_comes_before_body() {
    match error_of("fn f a = a; f(y)") {
        EvalError::UndefinedVariable { name } => assert_eq!(name, "y"),
        other => panic!("unexpected {:?}", other),
    }
}

#[test]
fn trailing_comma_in_call() {
    let with = format!("{:?}", parse("f(1,2,)").unwrap());
    let without = format!("{:?}", parse("f(1,2)").unwrap());
    assert_eq!(with, without);
}

#[test]
fn lone_comma_is_rejected() {
    assert!(parse("f(,)").is_err());
}

#[test]
fn unbalanced_parentheses() {
    let errs = parse("(1+2").unwrap_err();
    assert!(!errs.is_empty());
    assert_eq!(errs[0].start, 4);
}

#[test]
fn missing_semicolon_after_let() {
    let errs = parse("let x = 5 x").unwrap_err();
    assert!(!errs.is_empty());
}

#[test]
fn empty_input() {
    let errs = parse("").unwrap_err();
    assert_eq!(errs.len(), 1);
    assert_eq!((errs[0].start, errs[0].end), (0, 0));
    assert_eq!(errs[0].message, "unexpected end of input");
}

#[test]
fn error_names_the_character() {
    let errs = parse("1 + )").unwrap_err();
    assert_eq!((errs[0].start, errs[0].end), (4, 5));
    assert_eq!(errs[0].message, "unexpected character `)`");
}

#[test]
fn error_offsets_count_characters() {
    let errs = parse("é").unwrap_err();
    assert_eq!((errs[0].start, errs[0].end), (0, 1));
    assert_eq!(errs[0].message, "unexpected character `é`");
}

#[test]
fn whitespace_is_insignificant() {
    assert_eq!(value_of("  let\tx =\n 3 ;  x * ( x ) "), 9.0);
    assert_eq!(value_of(" fn f a b = a-b ; f ( 1 , 2 , ) "), -1.0);
}

#[test]
fn identifiers_keep_their_spelling() {
    match parse("abc_1").unwrap() {
        Expr::Var(n) => assert_eq!(n, "abc_1"),
        other => panic!("unexpected {:?}", other),
    }
}

#[test]
fn keyword_without_declaration_is_a_name() {
    match error_of("let + 1") {
        EvalError::UndefinedVariable { name } => assert_eq!(name, "let"),
        other => panic!("unexpected {:?}", other),
    }
}

#[test]
fn duplicate_parameters_last_wins() {
    assert_eq!(value_of("fn f a a = a; f(1,2)"), 2.0);
}

#[test]
fn leading_zeros_and_large_literals() {
    assert_eq!(value_of("007"), 7.0);
    assert_eq!(value_of("100000000000000000000"), 1e20);
}

#[test]
fn runaway_recursion_is_reported() {
    match error_of("fn f a = f(a); f(1)") {
        EvalError::CallDepthExceeded { name } => assert_eq!(name, "f"),
        other => panic!("unexpected {:?}", other),
    }
}

#[test]
fn nested_calls() {
    assert_eq!(value_of("fn sq x = x*x; fn sum a b = sq(a) + sq(b); sum(3, 4)"), 25.0);
}
