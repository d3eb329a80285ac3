//! Properties of the language that hold across calls.
use vstd::prelude::*;
use crate::ast::ExprView;
use crate::error::EvalFault;
use crate::eval::{bind, defun_name, eval_list, eval_spec, first_non_symbol, setq_name, symbol_names};
use crate::lexer::{lex, skip_space};
use crate::token::TokenView;

verus! {

/// Calling a name that has no binding fails with an unbound-symbol error.
pub proof fn lemma_unbound_call(env: Map<Seq<char>, ExprView>, name: Seq<char>, fuel: nat)
    requires
        !env.contains_key(name),
        name != setq_name(),
        name != defun_name(),
        fuel >= 2,
    ensures
        eval_spec(ExprView::List(seq![ExprView::Symbol(name)]), env, fuel)
            == (Err::<ExprView, EvalFault>(EvalFault::Unbound(name)), env),
{
    let items = seq![ExprView::Symbol(name)];
    assert(items[0] == ExprView::Symbol(name));
    assert(eval_spec(ExprView::Symbol(name), env, (fuel - 1) as nat)
        == (Err::<ExprView, EvalFault>(EvalFault::Unbound(name)), env));
}

/// After `(SETQ name e)` succeeds with value `v`, the name evaluates to `v` in the
/// environment that the assignment left.
pub proof fn lemma_setq_persists(
    env: Map<Seq<char>, ExprView>,
    name: Seq<char>,
    e: ExprView,
    fuel: nat,
    later_fuel: nat,
)
    requires
        later_fuel >= 1,
        eval_spec(
            ExprView::List(seq![ExprView::Symbol(setq_name()), ExprView::Symbol(name), e]),
            env,
            fuel,
        ).0 is Ok,
    ensures
        ({
            let (r, env1) = eval_spec(
                ExprView::List(seq![ExprView::Symbol(setq_name()), ExprView::Symbol(name), e]),
                env,
                fuel,
            );
            eval_spec(ExprView::Symbol(name), env1, later_fuel) == (r, env1)
        }),
{
    let items = seq![ExprView::Symbol(setq_name()), ExprView::Symbol(name), e];
    let rest = items.subrange(1, 3);
    assert(rest =~= seq![ExprView::Symbol(name), e]);
    assert(items[0] == ExprView::Symbol(setq_name()));
    assert(rest[0] == ExprView::Symbol(name));
    assert(rest[1] == e);
    let f = (fuel - 1) as nat;
    let (r1, env1) = eval_spec(e, env, f);
    assert(eval_spec(ExprView::List(items), env, fuel) == crate::eval::setq_spec(rest, env, f));
    if let Ok(v) = r1 {
        assert(crate::eval::setq_spec(rest, env, f) == (Ok::<ExprView, EvalFault>(v), env1.insert(name, v)));
    }
}

/// Applying a function to a number of arguments other than its number of parameters fails
/// with an arity error, before any argument is evaluated.
pub proof fn lemma_arity_mismatch(
    env: Map<Seq<char>, ExprView>,
    name: Seq<char>,
    params: Seq<Seq<char>>,
    body: ExprView,
    args: Seq<ExprView>,
    fuel: nat,
)
    requires
        env.contains_key(name),
        env[name] == ExprView::Lambda(params, Box::new(body)),
        params.len() != args.len(),
        name != setq_name(),
        name != defun_name(),
        fuel >= 2,
    ensures
        eval_spec(ExprView::List(seq![ExprView::Symbol(name)] + args), env, fuel)
            == (Err::<ExprView, EvalFault>(EvalFault::ArityMismatch(params.len(), args.len())), env),
{
    let items = seq![ExprView::Symbol(name)] + args;
    assert(items[0] == ExprView::Symbol(name));
    assert(items.subrange(1, items.len() as int) =~= args);
    let f = (fuel - 1) as nat;
    assert(eval_spec(ExprView::Symbol(name), env, f) == (Ok::<ExprView, EvalFault>(env[name]), env));
    assert(ExprView::Symbol(name) != ExprView::Symbol(setq_name()));
    assert(ExprView::Symbol(name) != ExprView::Symbol(defun_name()));
    assert(crate::eval::lambda_spec(params, body, args, env, f)
        == (Err::<ExprView, EvalFault>(EvalFault::ArityMismatch(params.len(), args.len())), env));
}

/// `(DEFUN name (params...) body)` returns the name and binds it to a function; calling
/// that name with as many arguments as parameters evaluates the arguments in the caller's
/// environment and the body in that environment with each parameter bound to its value.
pub proof fn lemma_defun_then_call(
    env: Map<Seq<char>, ExprView>,
    name: Seq<char>,
    ps: Seq<ExprView>,
    body: ExprView,
    args: Seq<ExprView>,
    fuel: nat,
    call_fuel: nat,
)
    requires
        fuel >= 1,
        call_fuel >= 2,
        first_non_symbol(ps) is None,
        ps.len() == args.len(),
        name != setq_name(),
        name != defun_name(),
    ensures
        ({
            let def = ExprView::List(seq![
                ExprView::Symbol(defun_name()),
                ExprView::Symbol(name),
                ExprView::List(ps),
                body,
            ]);
            let (r, env1) = eval_spec(def, env, fuel);
            let call = ExprView::List(seq![ExprView::Symbol(name)] + args);
            let f = (call_fuel - 1) as nat;
            let (ra, env2) = eval_list(args, env1, f);
            &&& r == Ok::<ExprView, EvalFault>(ExprView::Str(name))
            &&& env1 == env.insert(name, ExprView::Lambda(symbol_names(ps), Box::new(body)))
            &&& eval_spec(call, env1, call_fuel) == match ra {
                Err(x) => (Err::<ExprView, EvalFault>(x), env2),
                Ok(vals) => (eval_spec(body, bind(env2, symbol_names(ps), vals), f).0, env2),
            }
        }),
{
    let items = seq![ExprView::Symbol(defun_name()), ExprView::Symbol(name), ExprView::List(ps), body];
    let rest = items.subrange(1, 4);
    assert(rest =~= seq![ExprView::Symbol(name), ExprView::List(ps), body]);
    assert(items[0] == ExprView::Symbol(defun_name()));
    assert(ExprView::Symbol(defun_name()) != ExprView::Symbol(setq_name()));
    assert(rest[0] == ExprView::Symbol(name));
    assert(rest[1] == ExprView::List(ps));
    assert(rest[2] == body);
    let env1 = env.insert(name, ExprView::Lambda(symbol_names(ps), Box::new(body)));
    let call_items = seq![ExprView::Symbol(name)] + args;
    assert(call_items[0] == ExprView::Symbol(name));
    assert(call_items.subrange(1, call_items.len() as int) =~= args);
    assert(ExprView::Symbol(name) != ExprView::Symbol(setq_name()));
    assert(ExprView::Symbol(name) != ExprView::Symbol(defun_name()));
    let f = (call_fuel - 1) as nat;
    assert(eval_spec(ExprView::Symbol(name), env1, f) == (Ok::<ExprView, EvalFault>(env1[name]), env1));
    assert(symbol_names(ps).len() == ps.len());
    assert(crate::eval::defun_spec(rest, env) == (Ok::<ExprView, EvalFault>(ExprView::Str(name)), env1));
    assert(eval_spec(ExprView::List(items), env, fuel) == crate::eval::defun_spec(rest, env));
    assert(eval_spec(ExprView::List(call_items), env1, call_fuel)
        == crate::eval::lambda_spec(symbol_names(ps), body, args, env1, f));
}

/// A `^` where a token starts is an illegal token holding that character; the lexer moves
/// past it.
pub proof fn lemma_illegal_char(s: Seq<char>, p: int)
    requires
        0 <= skip_space(s, p) < s.len(),
        s[skip_space(s, p)] == '^',
    ensures
        lex(s, p) == (Ok::<TokenView, crate::lexer::LexFault>(TokenView::Illegal(seq!['^'])), skip_space(s, p) + 1),
{
}

/// Once the lexer yields `Eof`, it yields `Eof` forever after.
pub proof fn lemma_eof_forever(s: Seq<char>, p: int)
    requires
        0 <= p,
        lex(s, p).0 == Ok::<TokenView, crate::lexer::LexFault>(TokenView::Eof),
    ensures
        lex(s, lex(s, p).1).0 == Ok::<TokenView, crate::lexer::LexFault>(TokenView::Eof),
        lex(s, lex(s, p).1).1 == lex(s, p).1 + 1,
{
    crate::lexer::lemma_lex_bounds(s, p);
    let q = lex(s, p).1;
    crate::lexer::lemma_skip_space(s, q);
}

} // verus!
