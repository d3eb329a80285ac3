use risp::lexer::Lexer;
use risp::number::Number;
use risp::token::Token;

#[test]
fn read_test() {
    let mut lexer = Lexer::new("This is test Text".into()).unwrap();
    assert_eq!(lexer.ch, 'T');
    assert_eq!(lexer.length, 16);
    assert_eq!(lexer.position, 0);
    assert_eq!(lexer.read_position, 1);
    lexer.read().unwrap();
    assert_eq!(lexer.ch, 'h');
    assert_eq!(lexer.position, 1);
    assert_eq!(lexer.read_position, 2);
    lexer.read().unwrap();
    lexer.read().unwrap();
    assert_eq!(lexer.ch, 's');
    assert_eq!(lexer.position, 3);
    assert_eq!(lexer.read_position, 4);
}

#[test]
fn peek_test() {
    let input = String::from("peek_test");
    let mut lexer = Lexer::new(input.clone()).unwrap();
    let mut chars = input.chars();
    chars.next();
    while lexer.ch != '\0' {
        if let Some(ch) = chars.next() {
            let char = lexer.peek().unwrap();
            assert_eq!(char, ch);
        }
        lexer.read().unwrap();
    }
}

#[test]
fn read_invalid_token() {
    let mut lexer = Lexer::new(String::from("^")).unwrap();
    assert_eq!(
        lexer.next_token().unwrap(),
        Token::ILLEGAL(String::from("^"))
    );
}

#[test]
fn read_string() {
    let mut lexer = Lexer::new(String::from(r#""hello""#)).unwrap();
    assert_eq!(
        lexer.next_token().unwrap(),
        Token::STRING(String::from("hello"))
    );
}

#[test]
fn read_literal() {
    let mut lexer = Lexer::new(String::from("(setq a 2)")).unwrap();
    assert_eq!(lexer.next_token().unwrap(), Token::LPAREN);
    assert_eq!(
        lexer.next_token().unwrap(),
        Token::LITERAL(String::from("SETQ"))
    );
    assert_eq!(
        lexer.next_token().unwrap(),
        Token::LITERAL(String::from("A"))
    );
    assert_eq!(lexer.next_token().unwrap(), Token::NUMBER(Number::from_int(2)));
    assert_eq!(lexer.next_token().unwrap(), Token::RPAREN);
}

#[test]
fn read_var() {
    let mut lexer = Lexer::new(String::from("(+ a 2 a)")).unwrap();
    assert_eq!(lexer.next_token().unwrap(), Token::LPAREN);
    assert_eq!(lexer.next_token().unwrap(), Token::PLUS);
    assert_eq!(
        lexer.next_token().unwrap(),
        Token::LITERAL(String::from("A"))
    );
    assert_eq!(lexer.next_token().unwrap(), Token::NUMBER(Number::from_int(2)));
    assert_eq!(
        lexer.next_token().unwrap(),
        Token::LITERAL(String::from("A"))
    );
    assert_eq!(lexer.next_token().unwrap(), Token::RPAREN);
}

#[test]
fn read_number() {
    let tests = vec![
        ("1", Token::NUMBER(Number::from_int(1))),
        ("1.5", Token::NUMBER(Number::new(3, 2).unwrap())),
        ("2.345", Token::NUMBER(Number::new(2345, 1000).unwrap())),
    ];
    for test in tests {
        let mut lexer = Lexer::new(test.0.to_string()).unwrap();
        assert_eq!(lexer.next_token().unwrap(), test.1);
    }
}

#[test]
fn basic_arithemetic() {
    let mut lexer = Lexer::new(String::from("(+ 1 2)")).unwrap();
    assert_eq!(lexer.next_token().unwrap(), Token::LPAREN);
    assert_eq!(lexer.next_token().unwrap(), Token::PLUS);
    assert_eq!(lexer.next_token().unwrap(), Token::NUMBER(Number::from_int(1)));
    assert_eq!(lexer.next_token().unwrap(), Token::NUMBER(Number::from_int(2)));
    assert_eq!(lexer.next_token().unwrap(), Token::RPAREN);
    assert_eq!(lexer.next_token().unwrap(), Token::EOF);
}

#[test]
fn nested_arithmetic() {
    let mut lexer = Lexer::new(String::from("(+ (- 30 2) (* (/ 4 2) 3))")).unwrap();
    let wants = vec![
        Token::LPAREN,
        Token::PLUS,
        Token::LPAREN,
        Token::MINUS,
        Token::NUMBER(Number::from_int(30)),
        Token::NUMBER(Number::from_int(2)),
        Token::RPAREN,
        Token::LPAREN,
        Token::ASTERISK,
        Token::LPAREN,
        Token::SLASH,
        Token::NUMBER(Number::from_int(4)),
        Token::NUMBER(Number::from_int(2)),
        Token::RPAREN,
        Token::NUMBER(Number::from_int(3)),
        Token::RPAREN,
        Token::RPAREN,
        Token::EOF,
    ];
    for (i, want) in wants.into_iter().enumerate() {
        let token = lexer.next_token().unwrap();
        assert_eq!(
            token, want,
            "unexpected token[{}]: got={:?}, want={:?}",
            i, token, want,
        );
    }
}

#[test]
fn empty_input_is_rejected() {
    assert!(matches!(
        Lexer::new(String::new()),
        Err(risp::error::RispError::LexerInitialize(_))
    ));
}

#[test]
fn signed_numbers_and_operators() {
    let mut lexer = Lexer::new(String::from("-10 +3 - +")).unwrap();
    assert_eq!(lexer.next_token().unwrap(), Token::NUMBER(Number::from_int(-10)));
    assert_eq!(lexer.next_token().unwrap(), Token::NUMBER(Number::from_int(3)));
    assert_eq!(lexer.next_token().unwrap(), Token::MINUS);
    assert_eq!(lexer.next_token().unwrap(), Token::PLUS);
    assert_eq!(lexer.next_token().unwrap(), Token::EOF);
    assert_eq!(lexer.next_token().unwrap(), Token::EOF);
}

#[test]
fn malformed_numeral_is_a_parse_error() {
    let mut lexer = Lexer::new(String::from("1.2.3")).unwrap();
    match lexer.next_token() {
        Err(risp::error::RispError::Parse(text)) => assert_eq!(text, "1.2.3"),
        other => panic!("unexpected {:?}", other),
    }
}

#[test]
fn unterminated_string_is_a_read_error() {
    let mut lexer = Lexer::new(String::from("\"abc")).unwrap();
    assert!(matches!(lexer.next_token(), Err(risp::error::RispError::Read(_))));
}

#[test]
fn literals_true_nil_and_case() {
    let mut lexer = Lexer::new(String::from("NiL t")).unwrap();
    assert_eq!(lexer.next_token().unwrap(), Token::NIL);
    assert_eq!(lexer.next_token().unwrap(), Token::TRUE);
    let mut lexer = Lexer::new(String::from("t x")).unwrap();
    assert_eq!(lexer.next_token().unwrap(), Token::LITERAL(String::from("T")));
}

#[test]
fn illegal_character_inside_input() {
    let mut lexer = Lexer::new(String::from("  (a ^ b)")).unwrap();
    assert_eq!(lexer.next_token().unwrap(), Token::LPAREN);
    assert_eq!(lexer.next_token().unwrap(), Token::LITERAL(String::from("A")));
    assert_eq!(lexer.next_token().unwrap(), Token::ILLEGAL(String::from("^")));
    assert_eq!(lexer.next_token().unwrap(), Token::LITERAL(String::from("B")));
}

#[test]
fn numerals_denote_exact_numbers() {
    use_numeral("+7", Some(Number::from_int(7)));
    use_numeral("12.", Some(Number::from_int(12)));
    use_numeral("-0.25", Number::new(-1, 4));
    use_numeral(".", None);
    use_numeral("-", None);
    use_numeral("1.2.3", None);
    use_numeral("99999999999999999999", None);
}

fn use_numeral(text: &str, want: Option<Number>) {
    let chars: Vec<char> = text.chars().collect();
    assert_eq!(risp::lexer::parse_numeral(&chars), want, "numeral {}", text);
}

#[test]
fn reading_past_the_end_keeps_moving_the_cursor() {
    let mut lexer = Lexer::new(String::from("a")).unwrap();
    lexer.read().unwrap();
    lexer.read().unwrap();
    assert_eq!(lexer.ch, '\0');
    assert_eq!(lexer.position, 2);
    assert_eq!(lexer.read_position, 3);
    assert_eq!(lexer.peek().unwrap(), '\0');
}

#[test]
fn eof_lasts_forever_and_nul_inside_is_illegal() {
    let mut lexer = Lexer::new(String::from("a\0b")).unwrap();
    assert_eq!(lexer.next_token().unwrap(), Token::LITERAL(String::from("A")));
    assert_eq!(lexer.next_token().unwrap(), Token::ILLEGAL(String::from("\0")));
    assert_eq!(lexer.next_token().unwrap(), Token::LITERAL(String::from("B")));
    for _ in 0..5 {
        assert_eq!(lexer.next_token().unwrap(), Token::EOF);
    }
}
