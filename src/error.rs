//! The error taxonomy of the pipeline.
use vstd::prelude::*;
use crate::text::{digits, push_digits, push_text};

verus! {

/// What went wrong while evaluating an expression.
#[derive(Debug)]
pub enum ExprErr {
    /// A symbol with no binding; `env` lists the bindings that were in scope.
    Unbound { symbol: String, env: String },
    /// An empty list has no operator.
    EmptyList,
    /// A function value where an expression to evaluate was expected (its printed form).
    Invalid(String),
    /// An arithmetic operand that is not a number (its printed form).
    NotANumber(String),
    /// An arithmetic operation applied to no operand.
    NoOperands,
    /// Something that had to be a symbol and is not (its printed form).
    NotASymbol(String),
    /// A function applied to the wrong number of arguments.
    ArityMismatch { expected: usize, actual: usize },
    /// A `SETQ` form without exactly two arguments.
    MalformedSetq,
    /// A `DEFUN` form without a name, a parameter list and a body.
    MalformedDefun,
    /// A list whose operator is not a function (the operator's printed form).
    NotCallable(String),
    /// An arithmetic result that cannot be represented, or a division by zero.
    Arithmetic,
    /// Evaluation nested deeper than the evaluator allows.
    TooDeep,
}

/// The mathematical content of an evaluation error.
pub enum EvalFault {
    Unbound(Seq<char>),
    EmptyList,
    Invalid(Seq<char>),
    NotANumber(Seq<char>),
    NoOperands,
    NotASymbol(Seq<char>),
    ArityMismatch(nat, nat),
    MalformedSetq,
    MalformedDefun,
    NotCallable(Seq<char>),
    Arithmetic,
    TooDeep,
}

impl View for ExprErr {
    type V = EvalFault;

    /// The listing of the bindings in an `Unbound` error is for people; it is not part of
    /// the view.
    open spec fn view(&self) -> EvalFault {
        match self {
            ExprErr::Unbound { symbol, env } => EvalFault::Unbound(symbol@),
            ExprErr::EmptyList => EvalFault::EmptyList,
            ExprErr::Invalid(s) => EvalFault::Invalid(s@),
            ExprErr::NotANumber(s) => EvalFault::NotANumber(s@),
            ExprErr::NoOperands => EvalFault::NoOperands,
            ExprErr::NotASymbol(s) => EvalFault::NotASymbol(s@),
            ExprErr::ArityMismatch { expected, actual } => EvalFault::ArityMismatch(
                *expected as nat,
                *actual as nat,
            ),
            ExprErr::MalformedSetq => EvalFault::MalformedSetq,
            ExprErr::MalformedDefun => EvalFault::MalformedDefun,
            ExprErr::NotCallable(s) => EvalFault::NotCallable(s@),
            ExprErr::Arithmetic => EvalFault::Arithmetic,
            ExprErr::TooDeep => EvalFault::TooDeep,
        }
    }
}

/// An error of the lexer, the parser or the evaluator.
#[derive(Debug)]
pub enum RispError {
    /// The lexer could not be built from its input.
    LexerInitialize(String),
    /// A numeral that does not denote a number (its text).
    Parse(String),
    /// The cursor could not look ahead.
    Peek(String),
    /// The cursor could not advance.
    Read(String),
    /// An illegal token (its text).
    Syntax(String),
    /// An evaluation error.
    Expr(ExprErr),
}

/// The message for an evaluation error.
pub open spec fn expr_err_text(x: ExprErr) -> Seq<char> {
    match x {
        ExprErr::Unbound { symbol, env } => "not found symbol: "@ + symbol@ + ", env: "@ + env@,
        ExprErr::EmptyList => "an empty list has no operator"@,
        ExprErr::Invalid(s) => "Invalid expr: "@ + s@,
        ExprErr::NotANumber(s) => s@ + " is not number"@,
        ExprErr::NoOperands => "Expected at least one number"@,
        ExprErr::NotASymbol(s) => s@ + " is not symbol"@,
        ExprErr::ArityMismatch { expected, actual } => "Number of args and lambda's arg is not same: expected "@
            + digits(expected as nat) + ", got "@ + digits(actual as nat),
        ExprErr::MalformedSetq => "SETQ takes a symbol and a value"@,
        ExprErr::MalformedDefun => "Unexpected function definition"@,
        ExprErr::NotCallable(s) => s@ + " is not a function"@,
        ExprErr::Arithmetic => "arithmetic overflow or division by zero"@,
        ExprErr::TooDeep => "evaluation nested too deeply"@,
    }
}

/// The message for an error.
pub open spec fn error_text(e: RispError) -> Seq<char> {
    match e {
        RispError::LexerInitialize(s) => s@,
        RispError::Parse(s) => "Parse error: invalid number "@ + s@,
        RispError::Peek(s) => s@,
        RispError::Read(s) => s@,
        RispError::Syntax(s) => "Invalid token: "@ + s@,
        RispError::Expr(x) => expr_err_text(x),
    }
}

impl RispError {
    /// A message for people.
    pub fn to_string(&self) -> (r: String)
        ensures
            r@ == error_text(*self),
    {
        let mut m = String::new();
        match self {
            RispError::LexerInitialize(s) => push_text(&mut m, s.as_str()),
            RispError::Parse(s) => {
                push_text(&mut m, "Parse error: invalid number ");
                push_text(&mut m, s.as_str());
            },
            RispError::Peek(s) => push_text(&mut m, s.as_str()),
            RispError::Read(s) => push_text(&mut m, s.as_str()),
            RispError::Syntax(s) => {
                push_text(&mut m, "Invalid token: ");
                push_text(&mut m, s.as_str());
            },
            RispError::Expr(x) => match x {
                ExprErr::Unbound { symbol, env } => {
                    push_text(&mut m, "not found symbol: ");
                    push_text(&mut m, symbol.as_str());
                    push_text(&mut m, ", env: ");
                    push_text(&mut m, env.as_str());
                },
                ExprErr::EmptyList => push_text(&mut m, "an empty list has no operator"),
                ExprErr::Invalid(s) => {
                    push_text(&mut m, "Invalid expr: ");
                    push_text(&mut m, s.as_str());
                },
                ExprErr::NotANumber(s) => {
                    push_text(&mut m, s.as_str());
                    push_text(&mut m, " is not number");
                },
                ExprErr::NoOperands => push_text(&mut m, "Expected at least one number"),
                ExprErr::NotASymbol(s) => {
                    push_text(&mut m, s.as_str());
                    push_text(&mut m, " is not symbol");
                },
                ExprErr::ArityMismatch { expected, actual } => {
                    push_text(&mut m, "Number of args and lambda's arg is not same: expected ");
                    push_digits(&mut m, *expected as u64);
                    push_text(&mut m, ", got ");
                    push_digits(&mut m, *actual as u64);
                },
                ExprErr::MalformedSetq => push_text(&mut m, "SETQ takes a symbol and a value"),
                ExprErr::MalformedDefun => push_text(&mut m, "Unexpected function definition"),
                ExprErr::NotCallable(s) => {
                    push_text(&mut m, s.as_str());
                    push_text(&mut m, " is not a function");
                },
                ExprErr::Arithmetic => push_text(&mut m, "arithmetic overflow or division by zero"),
                ExprErr::TooDeep => push_text(&mut m, "evaluation nested too deeply"),
            },
        }
        assert(m@ =~= error_text(*self));
        m
    }
}

} // verus!
