use risp::ast::{Builtin, Expr};
use risp::error::{ExprErr, RispError};
use risp::eval::{default_env, Evaluator};
use risp::number::Number;
use risp::session::eval_line;

fn run(lines: &[&str]) -> Vec<Result<String, RispError>> {
    let mut evaluator = Evaluator::new();
    let mut env = default_env();
    lines
        .iter()
        .map(|l| eval_line(&mut evaluator, &mut env, &l.to_string()))
        .collect()
}

fn value(line: &str) -> String {
    run(&[line]).pop().unwrap().unwrap()
}

fn error(line: &str) -> ExprErr {
    match run(&[line]).pop().unwrap() {
        Err(RispError::Expr(e)) => e,
        other => panic!("unexpected {:?}", other),
    }
}

#[test]
fn eval_basic_atom() {
    assert_eq!(value("1"), "1");
    assert_eq!(value("\"hello\""), "hello");
    assert_eq!(value("t"), "T");
    assert_eq!(value("nil"), "NIL");
    assert_eq!(value("+"), "LAMBDA");
}

#[test]
fn eval_calc() {
    assert_eq!(value("(+ -10 5)"), "-5");
    assert_eq!(value("(+ (* 1 2) 3)"), "5");
    assert_eq!(value("(+ 1 2 (* 1 3))"), "6");
    assert_eq!(value("(+ (/ 2 (- 10 (* 1 1))))"), "2/9");
    assert_eq!(value("(- 10 1 2)"), "7");
    assert_eq!(value("(/ 1 2 2)"), "0.25");
    assert_eq!(value("(- 0 0.5)"), "-0.5");
    assert_eq!(value("(+ 0.1 0.2)"), "0.3");
    assert_eq!(value("(* 1.5 -2)"), "-3");
}

#[test]
fn eval_symbol() {
    let out = run(&["(SETQ X 5)", "X", "(setq x (+ x 1))", "X"]);
    assert_eq!(out[0].as_ref().unwrap(), "5");
    assert_eq!(out[1].as_ref().unwrap(), "5");
    assert_eq!(out[2].as_ref().unwrap(), "6");
    assert_eq!(out[3].as_ref().unwrap(), "6");
}

#[test]
fn eval_func() {
    let out = run(&["(DEFUN INC (X) (+ X 1))", "(INC 4)", "INC"]);
    assert_eq!(out[0].as_ref().unwrap(), "INC");
    assert_eq!(out[1].as_ref().unwrap(), "5");
    assert_eq!(out[2].as_ref().unwrap(), "LAMBDA");
}

#[test]
fn unbound_symbol_fails() {
    match error("(UNDEFINED)") {
        ExprErr::Unbound { symbol, env } => {
            assert_eq!(symbol, "UNDEFINED");
            assert!(env.contains("+=LAMBDA"));
        }
        other => panic!("unexpected {:?}", other),
    }
}

#[test]
fn arity_mismatch_fails() {
    let out = run(&["(DEFUN ADD (A B) (+ A B))", "(ADD 1)", "(ADD 1 2)"]);
    assert!(matches!(
        out[1],
        Err(RispError::Expr(ExprErr::ArityMismatch { expected: 2, actual: 1 }))
    ));
    assert_eq!(out[2].as_ref().unwrap(), "3");
}

#[test]
fn lambda_call_does_not_change_caller_env() {
    let out = run(&[
        "(SETQ Y 1)",
        "(DEFUN SETY (V) (SETQ Y V))",
        "(SETY 7)",
        "Y",
        "(DEFUN GETY () Y)",
        "(GETY)",
    ]);
    assert_eq!(out[2].as_ref().unwrap(), "7");
    assert_eq!(out[3].as_ref().unwrap(), "1");
    assert_eq!(out[5].as_ref().unwrap(), "1");
}

#[test]
fn arguments_are_evaluated_in_caller_env() {
    let out = run(&["(DEFUN ID (V) V)", "(ID (SETQ Z 3))", "Z"]);
    assert_eq!(out[1].as_ref().unwrap(), "3");
    assert_eq!(out[2].as_ref().unwrap(), "3");
}

#[test]
fn each_evaluation_error() {
    assert!(matches!(error("()"), ExprErr::EmptyList));
    assert!(matches!(error("(+ 1 \"a\")"), ExprErr::NotANumber(t) if t == "a"));
    assert!(matches!(error("(+)"), ExprErr::NoOperands));
    assert!(matches!(error("(SETQ 1 2)"), ExprErr::NotASymbol(t) if t == "1"));
    assert!(matches!(error("(SETQ X)"), ExprErr::MalformedSetq));
    assert!(matches!(error("(SETQ X 1 2)"), ExprErr::MalformedSetq));
    assert!(matches!(error("(DEFUN F)"), ExprErr::MalformedDefun));
    assert!(matches!(error("(DEFUN F X X)"), ExprErr::MalformedDefun));
    assert!(matches!(error("(DEFUN F (X 1) X)"), ExprErr::NotASymbol(t) if t == "1"));
    assert!(matches!(error("(1 2)"), ExprErr::NotCallable(t) if t == "1"));
    assert!(matches!(error("(/ 1 0)"), ExprErr::Arithmetic));
    assert!(matches!(error("(* 9223372036854775807 2)"), ExprErr::Arithmetic));
}

#[test]
fn function_values_are_not_expressions() {
    let mut evaluator = Evaluator::new();
    let mut env = default_env();
    let r = evaluator.eval(&Expr::Func(Builtin::Add), &mut env);
    assert!(matches!(r, Err(RispError::Expr(ExprErr::Invalid(t))) if t == "LAMBDA"));
}

#[test]
fn nesting_beyond_the_depth_fails() {
    let mut evaluator = Evaluator::with_depth(2);
    let mut env = default_env();
    let r = eval_line(&mut evaluator, &mut env, &"(+ 1 (+ 2 3))".to_string());
    assert!(matches!(r, Err(RispError::Expr(ExprErr::TooDeep))));
    assert_eq!(evaluator.depth(), 2);
    let r = eval_line(&mut evaluator, &mut env, &"(+ 1 2)".to_string());
    assert_eq!(r.unwrap(), "3");
}

#[test]
fn pipeline_reports_front_end_errors() {
    assert!(matches!(run(&[""])[0], Err(RispError::LexerInitialize(_))));
    assert!(matches!(run(&["^"])[0], Err(RispError::Syntax(_))));
    assert!(matches!(run(&["1..2"])[0], Err(RispError::Parse(_))));
}

#[test]
fn default_env_holds_the_four_operations() {
    let env = default_env();
    for (name, op) in [("+", Builtin::Add), ("-", Builtin::Sub), ("*", Builtin::Mul), ("/", Builtin::Div)] {
        assert!(matches!(env.get(&name.to_string()), Some(Expr::Func(b)) if *b == op));
    }
    assert!(env.get(&"SETQ".to_string()).is_none());
}

#[test]
fn expression_equality_is_structural() {
    let a = Expr::List(vec![Expr::Symbol("A".to_string()), Expr::Number(Number::from_int(1)), Expr::Nil]);
    let b = Expr::List(vec![Expr::Symbol("A".to_string()), Expr::Number(Number::from_int(1)), Expr::Nil]);
    let c = Expr::List(vec![Expr::Symbol("A".to_string())]);
    assert!(a == b);
    assert!(a != c);
    assert!(Expr::String("x".to_string()) != Expr::Symbol("x".to_string()));
    assert!(Expr::True != Expr::True);
    assert!(Expr::Func(Builtin::Add) != Expr::Func(Builtin::Add));
}

#[test]
fn error_messages() {
    let out = run(&["(DEFUN ADD (A B) (+ A B))", "(ADD 1)", "(+ 1 \"a\")", "^", "1.2.3", ""]);
    assert_eq!(
        out[1].as_ref().unwrap_err().to_string(),
        "Number of args and lambda's arg is not same: expected 2, got 1"
    );
    assert_eq!(out[2].as_ref().unwrap_err().to_string(), "a is not number");
    assert_eq!(out[3].as_ref().unwrap_err().to_string(), "Invalid token: ^");
    assert_eq!(out[4].as_ref().unwrap_err().to_string(), "Parse error: invalid number 1.2.3");
    assert_eq!(out[5].as_ref().unwrap_err().to_string(), "Lexer initialization Failed");
}
