//! The parser: builds one expression per call from the lexer's tokens.
use vstd::prelude::*;
use crate::ast::{Expr, ExprView, views, lemma_views};
use crate::error::RispError;
use crate::lexer::{Lexer, LexFault, lex, max_input, reports_lex};
use crate::text::single;
use crate::token::{Token, TokenView};

verus! {

/// Why an expression could not be parsed.
pub enum ParseFault {
    Lex(LexFault),
    /// An illegal token, with its text.
    Illegal(Seq<char>),
}

/// How many characters are left from `p` on.
pub open spec fn remaining(s: Seq<char>, p: int) -> nat {
    if p < s.len() { (s.len() - p) as nat } else { 0 }
}

/// The furthest a parse from `p` can leave the cursor: each opening parenthesis may add one
/// read past the end.
pub open spec fn reach(s: Seq<char>, p: int) -> int {
    if p <= s.len() { 2 * s.len() + 1 - p } else { p + 1 }
}

/// The expression that parsing at `p` yields, and where the cursor stands after it.
/// A closing parenthesis and the end of input both yield `Nil`, which also ends a list.
pub open spec fn parse_spec(s: Seq<char>, p: int) -> (Result<ExprView, ParseFault>, int)
    decreases remaining(s, p), 0int,
{
    let (t, q) = lex(s, p);
    match t {
        Err(f) => (Err(ParseFault::Lex(f)), q),
        Ok(TokenView::Number(n)) => (Ok(ExprView::Number(n)), q),
        Ok(TokenView::Str(x)) => (Ok(ExprView::Str(x)), q),
        Ok(TokenView::Literal(x)) => (Ok(ExprView::Symbol(x)), q),
        Ok(TokenView::Asterisk) => (Ok(ExprView::Symbol(seq!['*'])), q),
        Ok(TokenView::Minus) => (Ok(ExprView::Symbol(seq!['-'])), q),
        Ok(TokenView::Plus) => (Ok(ExprView::Symbol(seq!['+'])), q),
        Ok(TokenView::Slash) => (Ok(ExprView::Symbol(seq!['/'])), q),
        Ok(TokenView::True) => (Ok(ExprView::True), q),
        Ok(TokenView::Nil) => (Ok(ExprView::Nil), q),
        Ok(TokenView::Illegal(x)) => (Err(ParseFault::Illegal(x)), q),
        Ok(TokenView::Eof) => (Ok(ExprView::Nil), q),
        Ok(TokenView::RParen) => (Ok(ExprView::Nil), q),
        Ok(TokenView::LParen) => {
            // A token always moves the cursor on (`lemma_lex_bounds`); the test makes that
            // visible to the termination check.
            if p < q && p < s.len() {
                parse_items(s, q, seq![])
            } else {
                (Ok(ExprView::List(seq![])), q)
            }
        },
    }
}

/// The rest of a list whose elements so far are `acc`, parsed from `q`.
pub open spec fn parse_items(s: Seq<char>, q: int, acc: Seq<ExprView>) -> (Result<ExprView, ParseFault>, int)
    decreases remaining(s, q), 1int,
{
    let (r, q2) = parse_spec(s, q);
    match r {
        Err(f) => (Err(f), q2),
        Ok(ExprView::Nil) => (Ok(ExprView::List(acc)), q2),
        Ok(e) => {
            // Every element but `Nil` moves the cursor on, as `Parser::parse` proves.
            if q < q2 && q < s.len() {
                parse_items(s, q2, acc.push(e))
            } else {
                (Ok(ExprView::List(acc.push(e))), q2)
            }
        },
    }
}

/// The error that reports a parse fault.
pub open spec fn reports(f: ParseFault, x: RispError) -> bool {
    match f {
        ParseFault::Lex(f) => reports_lex(f, x),
        ParseFault::Illegal(t) => x matches RispError::Syntax(m) && m@ == t,
    }
}

/// Parses expressions from a lexer.
pub struct Parser {
    pub lexer: Lexer,
}

impl Parser {
    pub fn new(lexer: Lexer) -> (r: Parser)
        ensures
            r.lexer == lexer,
    {
        Parser { lexer }
    }

    /// Parses one expression: an atom, or a list up to its closing parenthesis.
    pub fn parse(&mut self) -> (r: Result<Expr, RispError>)
        requires
            old(self).lexer.wf(),
            old(self).lexer.position <= usize::MAX / 2,
        ensures
            final(self).lexer.wf(),
            final(self).lexer.input@ == old(self).lexer.input@,
            ({
                let s = old(self).lexer.input@;
                let p = old(self).lexer.position as int;
                let (res, q) = parse_spec(s, p);
                &&& r matches Ok(e) ==> res == Ok::<ExprView, ParseFault>(e@)
                    && final(self).lexer.position == q
                &&& r matches Err(x) ==> (res matches Err(f) && reports(f, x))
                &&& res is Ok ==> r is Ok
                &&& res is Ok ==> p < q <= reach(s, p)
                &&& (res matches Ok(v) && !(v is Nil)) ==> p < s.len()
            }),
        decreases remaining(old(self).lexer.input@, old(self).lexer.position as int),
    {
        let ghost s = self.lexer.input@;
        let ghost p = self.lexer.position as int;
        proof { crate::lexer::lemma_lex_bounds(s, p); }
        let token = self.lexer.next_token()?;
        match token {
            Token::NUMBER(n) => Ok(Expr::Number(n)),
            Token::STRING(x) => Ok(Expr::String(x)),
            Token::LITERAL(x) => Ok(Expr::Symbol(x)),
            Token::ASTERISK => Ok(Expr::Symbol(single('*'))),
            Token::MINUS => Ok(Expr::Symbol(single('-'))),
            Token::PLUS => Ok(Expr::Symbol(single('+'))),
            Token::SLASH => Ok(Expr::Symbol(single('/'))),
            Token::TRUE => Ok(Expr::True),
            Token::NIL => Ok(Expr::Nil),
            Token::ILLEGAL(x) => Err(RispError::Syntax(x)),
            Token::EOF => Ok(Expr::Nil),
            Token::RPAREN => Ok(Expr::Nil),
            Token::LPAREN => {
                let mut list: Vec<Expr> = Vec::new();
                loop
                    invariant
                        self.lexer.wf(),
                        self.lexer.input@ == s,
                        s == old(self).lexer.input@,
                        p == old(self).lexer.position,
                        p < s.len(),
                        p < self.lexer.position <= 2 * s.len() - p,
                        s.len() <= max_input(),
                        parse_spec(s, p) == parse_items(s, self.lexer.position as int, views(list@)),
                    decreases remaining(s, self.lexer.position as int),
                {
                    let ghost q = self.lexer.position as int;
                    let e = self.parse()?;
                    if e == Expr::Nil {
                        return Ok(Expr::List(list));
                    }
                    proof {
                        lemma_views(list@);
                        let l2 = list@.push(e);
                        lemma_views(l2);
                        assert(views(l2) =~= views(list@).push(e@));
                    }
                    list.push(e);
                }
            },
        }
    }
}

} // verus!
