// The evaluator, the default environment, and the built-in arithmetic.

use lang_core::env::default_env;
use lang_core::eval::{eval, parse_eval};
use lang_core::{LangEnv, LangErr, LangExp, LangProc};

fn eval_line(line: &str) -> Result<LangExp, LangErr> {
    let mut env = default_env();
    parse_eval(line.to_string(), &mut env)
}

fn number_of(line: &str) -> f64 {
    match eval_line(line) {
        Ok(LangExp::Number(bits)) => f64::from_bits(bits),
        other => panic!("expected a number from {line}: {other:?}"),
    }
}

#[test]
fn addition_of_two_numbers() {
    assert_eq!(number_of("(+ 10 5)"), 15.0);
}

#[test]
fn addition_is_variadic() {
    assert_eq!(number_of("(+ 1 2 3 4)"), 10.0);
}

#[test]
fn subtraction_folds_left() {
    assert_eq!(number_of("(- 10 3 2)"), 5.0);
}

#[test]
fn single_argument_subtraction_negates() {
    assert_eq!(number_of("(- 7)"), -7.0);
    assert_eq!(number_of("(- 0)").to_bits(), (-0.0f64).to_bits());
}

#[test]
fn nested_calls_evaluate_inside_out() {
    assert_eq!(number_of("(+ 1 (- 4 2))"), 3.0);
}

#[test]
fn empty_addition_is_zero() {
    assert_eq!(number_of("(+ )").to_bits(), 0.0f64.to_bits());
}

#[test]
fn empty_subtraction_is_missing_argument() {
    let err = eval_line("(- )").unwrap_err();
    assert!(matches!(err, LangErr::MissingArgument));
    assert_eq!(err.message(), "expected at least one number");
}

#[test]
fn sum_keeps_the_floating_point_fold_order() {
    // The sum of n >= 1 numbers starts from the first argument, so the
    // sign of a lone negative zero survives; a zero-seeded fold would
    // lose it.
    assert_eq!(number_of("(+ -0.0)").to_bits(), (-0.0f64).to_bits());
    let expected = (0.1f64 + 0.2f64) + 0.3f64;
    assert_eq!(number_of("(+ 0.1 0.2 0.3)").to_bits(), expected.to_bits());
}

#[test]
fn numbers_evaluate_to_themselves() {
    let bits = 2.75f64.to_bits();
    let mut env = default_env();
    match eval(&LangExp::Number(bits), &mut env) {
        Ok(LangExp::Number(b)) => assert_eq!(b, bits),
        _ => panic!("expected the same number back"),
    }
}

#[test]
fn undefined_symbol_reports_its_name() {
    let err = eval_line("foo").unwrap_err();
    match &err {
        LangErr::UndefinedSymbol(name) => assert_eq!(name, "foo"),
        _ => panic!("expected an undefined-symbol error"),
    }
    assert_eq!(err.message(), "undefined symbol foo");
    assert!(err.message().contains("foo"));
}

#[test]
fn empty_application_is_an_error() {
    let err = eval_line("()").unwrap_err();
    assert!(matches!(err, LangErr::EmptyApplication));
    assert_eq!(err.message(), "expected a non-empty list");
}

#[test]
fn head_must_be_callable() {
    let err = eval_line("(1 2)").unwrap_err();
    assert!(matches!(err, LangErr::HeadNotCallable));
    assert_eq!(err.message(), "first form must be a function");
}

#[test]
fn raw_procedure_form_is_an_error() {
    let mut env = default_env();
    let err = eval(&LangExp::Func(LangProc::Sub), &mut env).unwrap_err();
    assert!(matches!(err, LangErr::RawProcedureForm));
    assert_eq!(err.message(), "unexpected form");
}

#[test]
fn non_number_argument_reports_its_printed_form() {
    let err = eval_line("(+ 1 -)").unwrap_err();
    match &err {
        LangErr::ExpectedNumber(shown) => assert_eq!(shown, "Function {}"),
        _ => panic!("expected an expected-number error"),
    }
    assert_eq!(err.message(), "expected a number, got Function {}");
}

#[test]
fn first_malformed_argument_wins() {
    // Argument one is malformed, argument two is a valid number: the
    // error is the one from argument one.
    let err = eval_line("(+ nope 5)").unwrap_err();
    match err {
        LangErr::UndefinedSymbol(name) => assert_eq!(name, "nope"),
        _ => panic!("expected the error of the first argument"),
    }
    // Likewise when the later argument would fail too.
    let err = eval_line("(+ early (- ))").unwrap_err();
    match err {
        LangErr::UndefinedSymbol(name) => assert_eq!(name, "early"),
        _ => panic!("expected the error of the earlier argument"),
    }
}

#[test]
fn trailing_tokens_are_ignored() {
    assert_eq!(number_of("(+ 1 2) extra"), 3.0);
}

#[test]
fn bind_and_lookup_round_trip() {
    let mut env = LangEnv::new();
    env.bind("x".to_string(), LangExp::Number(2.5f64.to_bits()));
    match env.lookup(&"x".to_string()) {
        Some(LangExp::Number(b)) => assert_eq!(f64::from_bits(b), 2.5),
        _ => panic!("expected the bound number"),
    }
    assert!(env.lookup(&"y".to_string()).is_none());
    // A later binding replaces the earlier one.
    env.bind("x".to_string(), LangExp::Number(4.0f64.to_bits()));
    match env.lookup(&"x".to_string()) {
        Some(LangExp::Number(b)) => assert_eq!(f64::from_bits(b), 4.0),
        _ => panic!("expected the replacing number"),
    }
}

#[test]
fn evaluated_line_prints_like_the_shell_would() {
    let res = eval_line("(+ 10 5)").unwrap();
    assert_eq!(res.to_display_string(), "15");
    let res = eval_line("(- 10 3 2)").unwrap();
    assert_eq!(res.to_display_string(), "5");
    let res = eval_line("(- 7)").unwrap();
    assert_eq!(res.to_display_string(), "-7");
}

#[test]
fn environment_is_unchanged_by_evaluation() {
    let mut env = default_env();
    let _ = parse_eval("(+ 1 2)".to_string(), &mut env);
    let _ = parse_eval("bogus".to_string(), &mut env);
    match env.lookup(&"+".to_string()) {
        Some(LangExp::Func(LangProc::Add)) => {}
        _ => panic!("the + binding should survive"),
    }
    match env.lookup(&"-".to_string()) {
        Some(LangExp::Func(LangProc::Sub)) => {}
        _ => panic!("the - binding should survive"),
    }
}
