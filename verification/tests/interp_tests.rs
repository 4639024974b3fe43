use mlisp::eval::EvalResult;
use mlisp::interpreter::run_interpreter;
use mlisp::lex::lex;
use mlisp::parse::parse;
use mlisp::types::{expr_eq, Expr, Number};

#[test]
fn round_trip_lex_then_parse() {
    let tokens = lex("(+ 1 2)").expect("lexes");
    let expr = parse(&tokens).expect("parses");
    let expected = Expr::list(vec![
        Expr::symbol("+"),
        Expr::number(Number::new(1, 1)),
        Expr::number(Number::new(2, 1)),
    ]);
    assert_eq!(expr, expected);
}

#[test]
fn lexer_splits_adjacent_parens_and_literals() {
    let tokens = lex("(a(b c))").expect("lexes");
    assert_eq!(tokens.len(), 7);
    let expr = parse(&tokens).expect("parses");
    let expected = Expr::list(vec![
        Expr::symbol("a"),
        Expr::list(vec![Expr::symbol("b"), Expr::symbol("c")]),
    ]);
    assert_eq!(expr, expected);
}

#[test]
fn lexer_rejects_control_characters() {
    let mut out = Vec::new();
    match run_interpreter("(+ 1\u{1} 2)", &mut out) {
        EvalResult::Error(m) => assert_eq!(m, "Lex error: invalid character \u{1}"),
        other => panic!("Expected lex error, got {:?}", other),
    }
}

#[test]
fn arithmetic_arity_and_results() {
    let cases: Vec<(&str, Number)> = vec![
        ("(+ 1 2 3)", Number::new(6, 1)),
        ("(- 5)", Number::new(5, 1)),
        ("(- 5 2 1)", Number::new(2, 1)),
        ("(* 2 3 4)", Number::new(24, 1)),
        ("(+ 2.5 9.3)", Number::new(118, 10)),
        ("(/ 5 2)", Number::new(5, 2)),
    ];
    for (src, expected) in cases {
        let mut out = Vec::new();
        match run_interpreter(src, &mut out) {
            EvalResult::Value(x) => {
                assert!(
                    expr_eq(&x, &Expr::number(expected)),
                    "program {:?} gave {:?}",
                    src,
                    x
                );
            }
            other => panic!("Expected value for {:?}, got {:?}", src, other),
        }
    }
    let err_cases = vec![
        ("(+)", Some("Must perform addition on at least one number")),
        ("(*)", Some("Must perform multiplication on at least one number")),
        ("(-)", Some("Must perform subtraction on at least one number")),
        ("(/)", Some("Must perform division on at least one number")),
        ("(!=)", Some("'!=' with no arguments")),
        ("(+ 1 x)", None),
        ("(/ 1 0)", None),
    ];
    for (src, expected) in err_cases {
        let mut out = Vec::new();
        match run_interpreter(src, &mut out) {
            EvalResult::Error(m) => {
                if let Some(text) = expected {
                    assert_eq!(m, text, "program {:?}", src);
                }
            }
            other => panic!("Expected error for {:?}, got {:?}", src, other),
        }
    }
}

#[test]
fn division_chain_is_exact() {
    let mut out = Vec::new();
    match run_interpreter("(/ 8 2 2)", &mut out) {
        EvalResult::Value(x) => {
            assert!(expr_eq(&x, &Expr::number(Number::new(2, 1))));
        }
        other => panic!("Expected value, got {:?}", other),
    }
}

#[test]
fn equality_forms() {
    let cases = vec![
        ("(= 1 1 1)", "True"),
        ("(= 1 2)", "False"),
        ("(= (/ 8 2 2) 2)", "True"),
        ("(!= 1 2)", "True"),
        ("(!= 1 1 1)", "False"),
    ];
    for (src, expected) in cases {
        let mut out = Vec::new();
        match run_interpreter(src, &mut out) {
            EvalResult::Value(x) => match &*x {
                Expr::Symbol(s) => assert_eq!(s, expected, "program {:?}", src),
                other => panic!("Expected symbol for {:?}, got {:?}", src, other),
            },
            other => panic!("Expected value for {:?}, got {:?}", src, other),
        }
    }
    let mut out = Vec::new();
    match run_interpreter("(=)", &mut out) {
        EvalResult::Error(m) => assert_eq!(m, "'=' with no arguments"),
        other => panic!("Expected error, got {:?}", other),
    }
}

#[test]
fn and_or_compare_raw_arguments() {
    let cases = vec![
        ("(and 1 1)", "True"),
        ("(and 1 2)", "False"),
        ("(and x x)", "True"),
        ("(or True 1)", "True"),
        ("(or 1 2)", "False"),
        ("(not True)", "False"),
        ("(not False)", "True"),
    ];
    for (src, expected) in cases {
        let mut out = Vec::new();
        match run_interpreter(src, &mut out) {
            EvalResult::Value(x) => match &*x {
                Expr::Symbol(s) => assert_eq!(s, expected, "program {:?}", src),
                other => panic!("Expected symbol for {:?}, got {:?}", src, other),
            },
            other => panic!("Expected value for {:?}, got {:?}", src, other),
        }
    }
    let mut out = Vec::new();
    match run_interpreter("(not 5)", &mut out) {
        EvalResult::Error(m) => assert_eq!(m, "Invalid input for not operator"),
        other => panic!("Expected error, got {:?}", other),
    }
}

#[test]
fn let_binds_and_rejects_unit() {
    // A let makes the binding visible to the rest of the enclosing form.
    let mut out = Vec::new();
    match run_interpreter("((let x 5) x)", &mut out) {
        EvalResult::Value(x) => {
            let expected = Expr::list(vec![Expr::number(Number::new(5, 1))]);
            assert!(expr_eq(&x, &expected), "got {:?}", x);
        }
        other => panic!("Expected value, got {:?}", other),
    }
    // Binding the unit of a print is an error.
    let mut out2 = Vec::new();
    match run_interpreter("(let x (print 1))", &mut out2) {
        EvalResult::Error(m) => assert_eq!(m, "cannot assign Unit to a variable."),
        other => panic!("Expected error, got {:?}", other),
    }
}

#[test]
fn function_call_arity_error_names_both_counts() {
    let mut out = Vec::new();
    match run_interpreter("((fn f (a b) (+ a b)) (f 1))", &mut out) {
        EvalResult::Error(m) => {
            assert_eq!(m, "provided 1 arguments but expected 2");
        }
        other => panic!("Expected error, got {:?}", other),
    }
}

#[test]
fn unit_cannot_be_a_call_argument() {
    let mut out = Vec::new();
    match run_interpreter("((fn f (a) a) (f (print 1)))", &mut out) {
        EvalResult::Error(m) => {
            assert_eq!(m, "Cannot pass Unit as an argument to a function.");
        }
        other => panic!("Expected error, got {:?}", other),
    }
}

#[test]
fn first_error_in_a_plain_list_propagates() {
    let mut out = Vec::new();
    match run_interpreter("(1 (=) 2)", &mut out) {
        EvalResult::Error(m) => assert_eq!(m, "'=' with no arguments"),
        other => panic!("Expected error, got {:?}", other),
    }
    assert!(out.is_empty());
}

#[test]
fn function_call_evaluates_body_with_arguments() {
    let mut out = Vec::new();
    match run_interpreter("((fn add2 (a b) (+ a b)) (add2 1 2))", &mut out) {
        EvalResult::Value(x) => {
            let expected = Expr::list(vec![Expr::number(Number::new(3, 1))]);
            assert!(expr_eq(&x, &expected), "got {:?}", x);
        }
        other => panic!("Expected value, got {:?}", other),
    }
}

#[test]
fn callee_sees_caller_bindings_dynamically() {
    // The body reads `y`, bound by the caller, not at definition site.
    let mut out = Vec::new();
    match run_interpreter("((fn f (a) (+ a y)) (let y 10) (f 1))", &mut out) {
        EvalResult::Value(x) => {
            let expected = Expr::list(vec![Expr::number(Number::new(11, 1))]);
            assert!(expr_eq(&x, &expected), "got {:?}", x);
        }
        other => panic!("Expected value, got {:?}", other),
    }
}

#[test]
fn if_always_yields_then_branch() {
    for src in ["(if (= 1 1) 3 4)", "(if (= 1 2) 3 4)", "(if False 3 4)"] {
        let mut out = Vec::new();
        match run_interpreter(src, &mut out) {
            EvalResult::Value(x) => {
                assert!(
                    expr_eq(&x, &Expr::number(Number::new(3, 1))),
                    "program {:?} gave {:?}",
                    src,
                    x
                );
            }
            other => panic!("Expected value for {:?}, got {:?}", src, other),
        }
    }
}

#[test]
fn print_renders_and_yields_unit() {
    let mut out = Vec::new();
    match run_interpreter("(print 1 2.5 hello (/ 5 2))", &mut out) {
        EvalResult::Unit => {}
        other => panic!("Expected unit, got {:?}", other),
    }
    assert_eq!(out, vec!["1 2.5 hello (/ 5 2)".to_string()]);
}

#[test]
fn print_renders_bound_names_and_functions() {
    let mut out = Vec::new();
    match run_interpreter("((let x 5) (fn f (a) a) (print x f ()))", &mut out) {
        EvalResult::Value(_) => {}
        other => panic!("Expected value, got {:?}", other),
    }
    assert_eq!(out, vec!["5 <func-object: f> ()".to_string()]);
}

#[test]
fn empty_list_and_unbound_symbol_evaluate_to_themselves() {
    let mut out = Vec::new();
    match run_interpreter("()", &mut out) {
        EvalResult::Value(x) => assert!(expr_eq(&x, &Expr::list(vec![]))),
        other => panic!("Expected value, got {:?}", other),
    }
    let mut out2 = Vec::new();
    match run_interpreter("hello", &mut out2) {
        EvalResult::Value(x) => assert!(expr_eq(&x, &Expr::symbol("hello"))),
        other => panic!("Expected value, got {:?}", other),
    }
}

#[test]
fn list_of_values_drops_units_and_keeps_order() {
    let mut out = Vec::new();
    match run_interpreter("(1 (print 2) 3)", &mut out) {
        EvalResult::Value(x) => {
            let expected = Expr::list(vec![
                Expr::number(Number::new(1, 1)),
                Expr::number(Number::new(3, 1)),
            ]);
            assert!(expr_eq(&x, &expected), "got {:?}", x);
        }
        other => panic!("Expected value, got {:?}", other),
    }
    assert_eq!(out, vec!["2".to_string()]);
}

#[test]
fn parse_errors_are_reported_before_evaluation() {
    let cases = vec![
        ("(+ 1 2", "Parse error: Unclosed delimiter"),
        (")", "Parse error: Unexpected ) encountered."),
        ("", "Parse error: EOF"),
    ];
    for (src, expected) in cases {
        let mut out = Vec::new();
        match run_interpreter(src, &mut out) {
            EvalResult::Error(m) => assert_eq!(m, expected, "program {:?}", src),
            other => panic!("Expected parse error for {:?}, got {:?}", src, other),
        }
        assert!(out.is_empty());
    }
}

#[test]
fn runaway_recursion_stops_with_an_error() {
    let mut out = Vec::new();
    match run_interpreter("((fn f (a) (f a)) (f 1))", &mut out) {
        EvalResult::Error(m) => assert_eq!(m, "Evaluation depth exceeded"),
        other => panic!("Expected error, got {:?}", other),
    }
}

#[test]
fn trailing_top_level_forms_are_ignored() {
    let mut out = Vec::new();
    match run_interpreter("(+ 1 2) (+ 3 4)", &mut out) {
        EvalResult::Value(x) => {
            assert!(expr_eq(&x, &Expr::number(Number::new(3, 1))), "got {:?}", x);
        }
        other => panic!("Expected value, got {:?}", other),
    }
}
