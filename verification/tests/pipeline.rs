// Lexing, number recognition, parsing, and the printed forms.

use lang_core::lexer::tokenize;
use lang_core::numeric::check_number_token;
use lang_core::parser::parse;
use lang_core::{LangErr, LangExp, LangProc};

fn exp_eq(a: &LangExp, b: &LangExp) -> bool {
    match (a, b) {
        (LangExp::Symbol(x), LangExp::Symbol(y)) => x == y,
        (LangExp::Number(x), LangExp::Number(y)) => x == y,
        (LangExp::List(xs), LangExp::List(ys)) => {
            xs.len() == ys.len() && xs.iter().zip(ys.iter()).all(|(x, y)| exp_eq(x, y))
        }
        (LangExp::Func(x), LangExp::Func(y)) => x == y,
        _ => false,
    }
}

fn parse_line(line: &str) -> Result<LangExp, LangErr> {
    let tokens = tokenize(line.to_string());
    parse(&tokens, 0).map(|(e, _)| e)
}

#[test]
fn tokenize_pads_parens_and_splits() {
    let toks = tokenize("(+ 10 5)".to_string());
    assert_eq!(toks, vec!["(", "+", "10", "5", ")"]);
}

#[test]
fn tokenize_is_total_on_odd_input() {
    assert_eq!(tokenize(String::new()), Vec::<String>::new());
    assert_eq!(tokenize("  \t\n ".to_string()), Vec::<String>::new());
    let toks = tokenize(")))".to_string());
    assert_eq!(toks, vec![")", ")", ")"]);
    let toks = tokenize("a(b".to_string());
    assert_eq!(toks, vec!["a", "(", "b"]);
}

#[test]
fn number_tokens_follow_the_strict_grammar() {
    for good in ["0", "10", "-7", "+3", "3.5", "5.", "1.5e3", "2E-4", "-0.0"] {
        assert!(check_number_token(good), "{good} should be a number");
    }
    for bad in ["", "+", "-", ".5", "1e", "e5", "inf", "NaN", "1.2.3", "4x", "(", ")"] {
        assert!(!check_number_token(bad), "{bad} should not be a number");
    }
}

#[test]
fn parse_builds_the_expected_tree() {
    let e = parse_line("(+ 1 (- 4 2))").unwrap();
    let expected = LangExp::List(vec![
        LangExp::Symbol("+".to_string()),
        LangExp::Number(1.0f64.to_bits()),
        LangExp::List(vec![
            LangExp::Symbol("-".to_string()),
            LangExp::Number(4.0f64.to_bits()),
            LangExp::Number(2.0f64.to_bits()),
        ]),
    ]);
    assert!(exp_eq(&e, &expected));
}

#[test]
fn parse_leaves_trailing_tokens() {
    let tokens = tokenize("(+ 1 2) extra".to_string());
    let (e, rest) = parse(&tokens, 0).unwrap();
    assert!(matches!(e, LangExp::List(_)));
    assert_eq!(rest, 5);
    assert_eq!(tokens[rest], "extra");
}

#[test]
fn empty_list_parses_to_empty_list() {
    let e = parse_line("()").unwrap();
    match e {
        LangExp::List(v) => assert!(v.is_empty()),
        _ => panic!("expected a list"),
    }
}

#[test]
fn unbalanced_open_is_end_of_input() {
    let err = parse_line("(").unwrap_err();
    assert!(matches!(err, LangErr::UnexpectedEndOfInput));
    assert_eq!(err.message(), "unexpected end of input");
}

#[test]
fn stray_close_is_unexpected_close() {
    let err = parse_line(")").unwrap_err();
    assert!(matches!(err, LangErr::UnexpectedCloseParen));
    assert_eq!(err.message(), "unexpected closing parenthesis");
}

#[test]
fn empty_input_is_end_of_input() {
    let err = parse_line("").unwrap_err();
    assert!(matches!(err, LangErr::UnexpectedEndOfInput));
}

#[test]
fn non_numeric_atoms_are_symbols_verbatim() {
    let e = parse_line("in-f.x").unwrap();
    match e {
        LangExp::Symbol(s) => assert_eq!(s, "in-f.x"),
        _ => panic!("expected a symbol"),
    }
}

#[test]
fn display_form_is_comma_separated() {
    let e = parse_line("(+ 10 5)").unwrap();
    assert_eq!(e.to_display_string(), "(+,10,5)");
    assert_eq!(LangExp::Number(3.5f64.to_bits()).to_display_string(), "3.5");
    assert_eq!(LangExp::Func(LangProc::Add).to_display_string(), "Function {}");
}

#[test]
fn print_then_reparse_yields_an_equal_tree() {
    let original = parse_line("(+ 1.5 (- 4 2) foo ())").unwrap();
    let printed = original.to_lisp_string();
    assert_eq!(printed, "( + 1.5 ( - 4 2 ) foo ( ) )");
    let reparsed = parse_line(&printed).unwrap();
    assert!(exp_eq(&original, &reparsed));
}

#[test]
fn print_then_reparse_on_negative_and_fractional_numbers() {
    let original = parse_line("(-7 0.25 -0.0 1e3)").unwrap();
    let printed = original.to_lisp_string();
    let reparsed = parse_line(&printed).unwrap();
    assert!(exp_eq(&original, &reparsed));
}

#[test]
fn duplicate_copies_structurally() {
    let e = parse_line("(+ 1 (- 4 2))").unwrap();
    let copy = e.duplicate();
    assert!(exp_eq(&e, &copy));
}
