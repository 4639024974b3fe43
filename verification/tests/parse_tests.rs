use mlisp::lex::Token;
use mlisp::parse::{parse, parser, ParseError, ParseResult};
use mlisp::types::{Expr, Number};

#[test]
fn parse_fnum() {
    let res = parser(&vec![Token::Literal("1".into())], 0);
    if let ParseResult::Success(i, expr) = res {
        assert_eq!(i, 1);
        if let Expr::Num(n) = &*expr {
            assert_eq!(*n, Number::new(1, 1));
        } else {
            panic!("expected fnum, got {:?}", *expr);
        }
    } else {
        panic!("Expected success, failed with: {:?}", res);
    }
}

#[test]
fn parse_symbol() {
    let res = parser(&vec![Token::Literal("hello".into())], 0);
    if let ParseResult::Success(i, expr) = res {
        assert_eq!(i, 1);
        if let Expr::Symbol(s) = &*expr {
            assert_eq!(s, "hello");
        } else {
            panic!("expected fnum, got {:?}", *expr);
        }
    } else {
        panic!("Expected success, failed with: {:?}", res);
    }
}

#[test]
fn parse_list() {
    let tokens = vec![
        Token::LPar,
        Token::Literal("+".into()),
        Token::Literal("2.5".into()),
        Token::Literal("9.3".into()),
        Token::RPar,
    ];
    let expected = Expr::list(vec![
        Expr::symbol("+"),
        Expr::number(Number::new(25, 10)),
        Expr::number(Number::new(93, 10)),
    ]);
    let res = parser(&tokens, 0);
    if let ParseResult::Success(i, expr) = res {
        assert_eq!(i, tokens.len());
        assert_eq!(expr, expected);
    } else {
        panic!("Expected success, failed with {:?}", res);
    }
}

#[test]
fn parse_nested_symbol() {
    let tokens = vec![
        Token::LPar,
        Token::LPar,
        Token::Literal("f".into()),
        Token::RPar,
        Token::RPar,
    ];
    let expected = Expr::list(vec![Expr::list(vec![Expr::symbol("f")])]);
    let res = parser(&tokens, 0);
    if let ParseResult::Success(i, expr) = res {
        assert_eq!(i, tokens.len());
        assert_eq!(expected, expr);
    } else {
        panic!("Expected Success, failed with {:?}", res);
    }
}

#[test]
fn nested_lists() {
    let tokens = vec![
        Token::LPar,
        Token::Literal("+".into()),
        Token::LPar,
        Token::Literal("+".into()),
        Token::Literal("2.5".into()),
        Token::Literal("9.3".into()),
        Token::RPar,
        Token::LPar,
        Token::Literal("+".into()),
        Token::Literal("2.5".into()),
        Token::Literal("9.3".into()),
        Token::RPar,
        Token::RPar,
    ];
    let expected = Expr::list(vec![
        Expr::symbol("+"),
        Expr::list(vec![
            Expr::symbol("+"),
            Expr::number(Number::new(25, 10)),
            Expr::number(Number::new(93, 10)),
        ]),
        Expr::list(vec![
            Expr::symbol("+"),
            Expr::number(Number::new(25, 10)),
            Expr::number(Number::new(93, 10)),
        ]),
    ]);
    let res = parser(&tokens, 0);
    if let ParseResult::Success(i, expr) = res {
        assert_eq!(i, tokens.len());
        assert_eq!(expr, expected);
    } else {
        panic!("Expected Success, got {:?}", res);
    }
}

#[test]
fn parse_empty_list_and_failures() {
    // The empty list is grammatical.
    let res = parser(&vec![Token::LPar, Token::RPar], 0);
    if let ParseResult::Success(i, expr) = res {
        assert_eq!(i, 2);
        assert_eq!(expr, Expr::list(vec![]));
    } else {
        panic!("Expected Success, got {:?}", res);
    }
    // A close parenthesis where an expression should begin.
    match parser(&vec![Token::RPar], 0) {
        ParseResult::Failure(ParseError::BadParse(m)) => {
            assert_eq!(m, "Unexpected ) encountered.");
        }
        other => panic!("Expected BadParse, got {:?}", other),
    }
    // A list the tokens end before closing.
    match parser(&vec![Token::LPar, Token::Literal("1".into())], 0) {
        ParseResult::Failure(ParseError::BadParse(m)) => {
            assert_eq!(m, "Unclosed delimiter");
        }
        other => panic!("Expected BadParse, got {:?}", other),
    }
    // No tokens at all.
    match parse(&vec![]) {
        Err(ParseError::EOF) => {}
        other => panic!("Expected EOF, got {:?}", other),
    }
}

#[test]
fn parse_takes_first_root_form_only() {
    // Two adjacent top-level forms: parse returns the first and does
    // not report an error for the unconsumed trailing tokens.
    let tokens = vec![
        Token::Literal("1".into()),
        Token::LPar,
        Token::Literal("+".into()),
        Token::Literal("2".into()),
        Token::RPar,
    ];
    match parse(&tokens) {
        Ok(expr) => assert_eq!(expr, Expr::number(Number::new(1, 1))),
        Err(e) => panic!("Expected Ok, got {:?}", e),
    }
}

#[test]
fn parse_number_literal_forms() {
    let cases: Vec<(&str, Number)> = vec![
        ("1", Number::new(1, 1)),
        ("-5", Number::new(-5, 1)),
        ("+5", Number::new(5, 1)),
        ("0.25", Number::new(25, 100)),
        (".5", Number::new(5, 10)),
        ("5.", Number::new(5, 1)),
        ("2.5e1", Number::new(250, 10)),
        ("1e-2", Number::new(1, 100)),
        ("-9.3", Number::new(-93, 10)),
    ];
    for (text, expected) in cases {
        match parser(&vec![Token::Literal(text.into())], 0) {
            ParseResult::Success(_, expr) => {
                assert_eq!(*expr, Expr::Num(expected), "literal {:?}", text);
            }
            other => panic!("Expected Success for {:?}, got {:?}", text, other),
        }
    }
    // Text that is not a number becomes a symbol.
    for text in ["abc", "1x", "e5", "--1", "1.2.3", ""] {
        match parser(&vec![Token::Literal(text.into())], 0) {
            ParseResult::Success(_, expr) => match &*expr {
                Expr::Symbol(s) => assert_eq!(s, text),
                other => panic!("Expected Symbol for {:?}, got {:?}", text, other),
            },
            other => panic!("Expected Success for {:?}, got {:?}", text, other),
        }
    }
}
