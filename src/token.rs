//! The lexical categories produced by the lexer.
use vstd::prelude::*;
use crate::number::{Number, number_text};
use crate::text::{push_char, push_text};

verus! {

/// One token of source text.
#[allow(non_camel_case_types)]
#[derive(Debug, PartialEq)]
pub enum Token {
    PLUS,
    MINUS,
    ASTERISK,
    SLASH,
    LPAREN,
    RPAREN,
    EOF,
    TRUE,
    NIL,
    ILLEGAL(String),
    NUMBER(Number),
    STRING(String),
    LITERAL(String),
}

/// The mathematical content of a token.
pub enum TokenView {
    Plus,
    Minus,
    Asterisk,
    Slash,
    LParen,
    RParen,
    Eof,
    True,
    Nil,
    Illegal(Seq<char>),
    Number(Number),
    Str(Seq<char>),
    Literal(Seq<char>),
}

impl View for Token {
    type V = TokenView;

    open spec fn view(&self) -> TokenView {
        match self {
            Token::PLUS => TokenView::Plus,
            Token::MINUS => TokenView::Minus,
            Token::ASTERISK => TokenView::Asterisk,
            Token::SLASH => TokenView::Slash,
            Token::LPAREN => TokenView::LParen,
            Token::RPAREN => TokenView::RParen,
            Token::EOF => TokenView::Eof,
            Token::TRUE => TokenView::True,
            Token::NIL => TokenView::Nil,
            Token::ILLEGAL(s) => TokenView::Illegal(s@),
            Token::NUMBER(n) => TokenView::Number(*n),
            Token::STRING(s) => TokenView::Str(s@),
            Token::LITERAL(s) => TokenView::Literal(s@),
        }
    }
}

/// The printed form of a token.
pub open spec fn token_text(t: TokenView) -> Seq<char> {
    match t {
        TokenView::Plus => seq!['+'],
        TokenView::Minus => seq!['-'],
        TokenView::Asterisk => seq!['*'],
        TokenView::Slash => seq!['/'],
        TokenView::LParen => seq!['('],
        TokenView::RParen => seq![')'],
        TokenView::Eof => seq!['E', 'O', 'F'],
        TokenView::True => seq!['T'],
        TokenView::Nil => seq!['N', 'I', 'L'],
        TokenView::Illegal(s) => seq!['I', 'L', 'L', 'E', 'G', 'A', 'L', '('] + s + seq![')'],
        TokenView::Number(n) => number_text(n),
        TokenView::Str(s) => s,
        TokenView::Literal(s) => s,
    }
}

impl Token {
    /// The printed form of this token.
    pub fn to_string(&self) -> (r: String)
        ensures
            r@ == token_text(self@),
    {
        let mut s = String::new();
        match self {
            Token::PLUS => push_char(&mut s, '+'),
            Token::MINUS => push_char(&mut s, '-'),
            Token::ASTERISK => push_char(&mut s, '*'),
            Token::SLASH => push_char(&mut s, '/'),
            Token::LPAREN => push_char(&mut s, '('),
            Token::RPAREN => push_char(&mut s, ')'),
            Token::EOF => {
                push_char(&mut s, 'E');
                push_char(&mut s, 'O');
                push_char(&mut s, 'F');
            },
            Token::TRUE => push_char(&mut s, 'T'),
            Token::NIL => {
                push_char(&mut s, 'N');
                push_char(&mut s, 'I');
                push_char(&mut s, 'L');
            },
            Token::ILLEGAL(t) => {
                push_char(&mut s, 'I');
                push_char(&mut s, 'L');
                push_char(&mut s, 'L');
                push_char(&mut s, 'E');
                push_char(&mut s, 'G');
                push_char(&mut s, 'A');
                push_char(&mut s, 'L');
                push_char(&mut s, '(');
                push_text(&mut s, t.as_str());
                push_char(&mut s, ')');
            },
            Token::NUMBER(n) => n.write_to(&mut s),
            Token::STRING(t) => push_text(&mut s, t.as_str()),
            Token::LITERAL(t) => push_text(&mut s, t.as_str()),
        }
        assert(s@ =~= token_text(self@));
        s
    }
}

} // verus!
