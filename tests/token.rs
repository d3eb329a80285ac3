use risp::number::Number;
use risp::token::Token;

#[test]
fn test_token() {
    let tokens = vec![
        (Token::PLUS, "+".to_string()),
        (Token::LPAREN, "(".to_string()),
        (Token::ILLEGAL("Test".into()), "ILLEGAL(Test)".to_string()),
        (Token::STRING("StringTest".into()), "StringTest".to_string()),
    ];
    for (token, str) in tokens {
        assert_eq!(token.to_string(), str);
    }
}

#[test]
fn token_text_of_numbers_and_markers() {
    assert_eq!(Token::NUMBER(Number::from_int(-42)).to_string(), "-42");
    assert_eq!(Token::NUMBER(Number::new(3, 2).unwrap()).to_string(), "1.5");
    assert_eq!(Token::NUMBER(Number::new(-1, 8).unwrap()).to_string(), "-0.125");
    assert_eq!(Token::NUMBER(Number::new(2, 9).unwrap()).to_string(), "2/9");
    assert_eq!(Token::NUMBER(Number::new(1, 1024).unwrap()).to_string(), "0.0009765625");
    assert_eq!(Token::EOF.to_string(), "EOF");
    assert_eq!(Token::NIL.to_string(), "NIL");
    assert_eq!(Token::TRUE.to_string(), "T");
}

#[test]
fn number_arithmetic_is_exact() {
    let a = Number::new(1, 2).unwrap();
    let b = Number::new(1, 3).unwrap();
    assert_eq!(a.add(&b), Number::new(5, 6));
    assert_eq!(a.sub(&b), Number::new(1, 6));
    assert_eq!(a.mul(&b), Number::new(1, 6));
    assert_eq!(a.div(&b), Number::new(3, 2));
    assert_eq!(a.div(&Number::from_int(0)), None);
    assert_eq!(Number::new(4, -6), Some(Number { num: -2, den: 3 }));
    assert_eq!(Number::new(1, 0), None);
    assert_eq!(Number::from_int(i64::MAX).add(&Number::from_int(1)), None);
}
