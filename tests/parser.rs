use risp::lexer::Lexer;
use risp::parser::Parser;
use risp::ast::Expr;
use risp::error::RispError;

#[test]
fn parse_test() {
    let tests = vec![
        "(+ -10 5)",
        "(+ (* 1 2) 3)",
        "(+ (/ 2 (- 10 (* 1 1))))",
        "1",
        "hello",
        "(+ 1 2 (* 1 3))",
        "t",
        "nil",
    ];
    for test in tests {
        let lexer = Lexer::new(String::from(test)).unwrap();
        let mut parser = Parser::new(lexer);
        let expr = parser.parse().unwrap();
        assert_eq!(expr.to_string(), test.to_uppercase());
    }
}

#[test]
fn round_trip_atoms() {
    for (input, want) in [("1", "1"), ("hello", "HELLO"), ("t", "T"), ("nil", "NIL")] {
        let mut parser = Parser::new(Lexer::new(String::from(input)).unwrap());
        assert_eq!(parser.parse().unwrap().to_string(), want);
    }
}

#[test]
fn nil_inside_a_list_ends_it() {
    let mut parser = Parser::new(Lexer::new(String::from("(a nil b)")).unwrap());
    assert_eq!(parser.parse().unwrap().to_string(), "(A)");
}

#[test]
fn illegal_token_is_a_syntax_error() {
    let mut parser = Parser::new(Lexer::new(String::from("(+ 1 ^)")).unwrap());
    match parser.parse() {
        Err(RispError::Syntax(t)) => assert_eq!(t, "^"),
        other => panic!("unexpected {:?}", other.map(|e| e.to_string())),
    }
}

#[test]
fn strings_and_operators_parse_to_atoms() {
    let mut parser = Parser::new(Lexer::new(String::from("(\"hi there\" * /)")).unwrap());
    let e = parser.parse().unwrap();
    assert_eq!(e.to_string(), "(hi there * /)");
    match e {
        Expr::List(items) => {
            assert!(matches!(&items[0], Expr::String(s) if s == "hi there"));
            assert!(matches!(&items[1], Expr::Symbol(s) if s == "*"));
        }
        _ => panic!("not a list"),
    }
}

#[test]
fn lexer_errors_come_through_unchanged() {
    let mut parser = Parser::new(Lexer::new(String::from("(+ 1.2.3 4)")).unwrap());
    match parser.parse() {
        Err(RispError::Parse(t)) => assert_eq!(t, "1.2.3"),
        other => panic!("unexpected {:?}", other.map(|e| e.to_string())),
    }
    let mut parser = Parser::new(Lexer::new(String::from("(\"abc")).unwrap());
    match parser.parse() {
        Err(RispError::Read(t)) => assert_eq!(t, "unterminated string"),
        other => panic!("unexpected {:?}", other.map(|e| e.to_string())),
    }
}

#[test]
fn unclosed_lists_end_at_the_end_of_input() {
    let mut parser = Parser::new(Lexer::new(String::from("((1 2")).unwrap());
    assert_eq!(parser.parse().unwrap().to_string(), "((1 2))");
    assert_eq!(parser.parse().unwrap().to_string(), "NIL");
}
