//! One line of source text through the whole pipeline: lex, parse, evaluate, print.
use vstd::prelude::*;
use crate::ast::expr_text;
use crate::env::ExprEnv;
use crate::error::RispError;
use crate::eval::{Evaluator, eval_spec};
use crate::lexer::{Lexer, max_input};
use crate::parser::{Parser, parse_spec, reports};

verus! {

/// Evaluates the first expression of `line` in `env` and returns its printed form.
pub fn eval_line(evaluator: &mut Evaluator, env: &mut ExprEnv, line: &String) -> (r: Result<String, RispError>)
    requires
        old(env).wf(),
    ensures
        final(env).wf(),
        final(evaluator).budget() == old(evaluator).budget(),
        line@.len() == 0 ==> (r matches Err(x) && x is LexerInitialize && final(env)@ == old(env)@),
        0 < line@.len() <= max_input() ==> match parse_spec(line@, 0).0 {
            Err(f) => r matches Err(x) && reports(f, x) && final(env)@ == old(env)@,
            Ok(e) => {
                let (res, env2) = eval_spec(e, old(env)@, old(evaluator).budget());
                &&& final(env)@ == env2
                &&& match res {
                    Ok(v) => r matches Ok(s) && s@ == expr_text(v),
                    Err(f) => r matches Err(RispError::Expr(x)) && x@ == f,
                }
            },
        },
{
    let lexer = Lexer::new(line.clone())?;
    let mut parser = Parser::new(lexer);
    let expr = parser.parse()?;
    let result = evaluator.eval(&expr, env)?;
    Ok(result.to_string())
}

} // verus!
