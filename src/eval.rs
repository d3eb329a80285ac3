//! The evaluator: special forms, function application and the built-in arithmetic.
use vstd::prelude::*;
use std::rc::Rc;
use crate::ast::{Builtin, Expr, ExprView, Lambda, expr_text, lemma_views, names, views};
use crate::env::ExprEnv;
use crate::error::{EvalFault, ExprErr, RispError};
use crate::number::{Number, add_spec, div_spec, mul_spec, sub_spec};
use crate::text::{push_char, push_text, single};

verus! {

/// How deep evaluation may nest before it gives up.
pub const MAX_DEPTH: u64 = 1000;

pub open spec fn is_number(e: ExprView) -> bool {
    e matches ExprView::Number(n) && n.wf()
}

/// The first operand that is not a number, if any.
pub open spec fn first_non_number(xs: Seq<ExprView>) -> Option<ExprView>
    decreases xs.len(),
{
    if xs.len() == 0 {
        None
    } else if !is_number(xs[0]) {
        Some(xs[0])
    } else {
        first_non_number(xs.subrange(1, xs.len() as int))
    }
}

pub open spec fn numbers(xs: Seq<ExprView>) -> Seq<Number> {
    xs.map_values(|e: ExprView| e->Number_0)
}

/// The first element that is not a symbol, if any.
pub open spec fn first_non_symbol(xs: Seq<ExprView>) -> Option<ExprView>
    decreases xs.len(),
{
    if xs.len() == 0 {
        None
    } else if !(xs[0] is Symbol) {
        Some(xs[0])
    } else {
        first_non_symbol(xs.subrange(1, xs.len() as int))
    }
}

pub open spec fn symbol_names(xs: Seq<ExprView>) -> Seq<Seq<char>> {
    xs.map_values(|e: ExprView| e->Symbol_0)
}

pub open spec fn number_op(op: Builtin, a: Number, b: Number) -> Option<Number> {
    match op {
        Builtin::Add => add_spec(a, b),
        Builtin::Sub => sub_spec(a, b),
        Builtin::Mul => mul_spec(a, b),
        Builtin::Div => div_spec(a, b),
    }
}

/// Folds `rest` onto `acc` from the left; `None` as soon as one step has no result.
pub open spec fn fold_spec(op: Builtin, acc: Number, rest: Seq<Number>) -> Option<Number>
    decreases rest.len(),
{
    if rest.len() == 0 {
        Some(acc)
    } else {
        match number_op(op, acc, rest[0]) {
            None => None,
            Some(a) => fold_spec(op, a, rest.subrange(1, rest.len() as int)),
        }
    }
}

/// A built-in operation applied to evaluated arguments: every argument must be a number,
/// there must be at least one, and the rest are folded onto the first.
pub open spec fn apply_spec(op: Builtin, args: Seq<ExprView>) -> Result<ExprView, EvalFault> {
    match first_non_number(args) {
        Some(x) => Err(EvalFault::NotANumber(expr_text(x))),
        None => {
            let ns = numbers(args);
            if ns.len() == 0 {
                Err(EvalFault::NoOperands)
            } else {
                match fold_spec(op, ns[0], ns.subrange(1, ns.len() as int)) {
                    Some(n) => Ok(ExprView::Number(n)),
                    None => Err(EvalFault::Arithmetic),
                }
            }
        }
    }
}

pub open spec fn setq_name() -> Seq<char> {
    seq!['S', 'E', 'T', 'Q']
}

pub open spec fn defun_name() -> Seq<char> {
    seq!['D', 'E', 'F', 'U', 'N']
}

/// Binds each parameter to its value, in order.
pub open spec fn bind(env: Map<Seq<char>, ExprView>, params: Seq<Seq<char>>, vals: Seq<ExprView>) -> Map<Seq<char>, ExprView>
    decreases params.len(),
{
    if params.len() == 0 || vals.len() == 0 {
        env
    } else {
        bind(
            env.insert(params[0], vals[0]),
            params.subrange(1, params.len() as int),
            vals.subrange(1, vals.len() as int),
        )
    }
}

/// Evaluates `e` in `env` with `fuel` levels of nesting left: the result, and the
/// environment afterwards.
pub open spec fn eval_spec(e: ExprView, env: Map<Seq<char>, ExprView>, fuel: nat) -> (Result<ExprView, EvalFault>, Map<Seq<char>, ExprView>)
    decreases fuel, 0int,
{
    if fuel == 0 {
        (Err(EvalFault::TooDeep), env)
    } else {
        let f = (fuel - 1) as nat;
        match e {
            ExprView::Symbol(name) => {
                if env.contains_key(name) {
                    (Ok(env[name]), env)
                } else {
                    (Err(EvalFault::Unbound(name)), env)
                }
            },
            ExprView::List(items) => {
                if items.len() == 0 {
                    (Err(EvalFault::EmptyList), env)
                } else {
                    let first = items[0];
                    let rest = items.subrange(1, items.len() as int);
                    if first == ExprView::Symbol(setq_name()) {
                        setq_spec(rest, env, f)
                    } else if first == ExprView::Symbol(defun_name()) {
                        defun_spec(rest, env)
                    } else {
                        let (r1, env1) = eval_spec(first, env, f);
                        match r1 {
                            Err(x) => (Err(x), env1),
                            Ok(ExprView::Func(op)) => {
                                let (ra, env2) = eval_list(rest, env1, f);
                                match ra {
                                    Err(x) => (Err(x), env2),
                                    Ok(vals) => (apply_spec(op, vals), env2),
                                }
                            },
                            Ok(ExprView::Lambda(params, body)) => lambda_spec(params, *body, rest, env1, f),
                            Ok(other) => (Err(EvalFault::NotCallable(expr_text(other))), env1),
                        }
                    }
                }
            },
            ExprView::Func(_) => (Err(EvalFault::Invalid(expr_text(e))), env),
            ExprView::Lambda(_, _) => (Err(EvalFault::Invalid(expr_text(e))), env),
            _ => (Ok(e), env),
        }
    }
}

/// Evaluates `args` from left to right, each in the environment the previous one left.
pub open spec fn eval_list(args: Seq<ExprView>, env: Map<Seq<char>, ExprView>, fuel: nat) -> (Result<Seq<ExprView>, EvalFault>, Map<Seq<char>, ExprView>)
    decreases fuel, args.len(),
{
    if args.len() == 0 {
        (Ok(seq![]), env)
    } else {
        let (r, env1) = eval_spec(args[0], env, fuel);
        match r {
            Err(x) => (Err(x), env1),
            Ok(v) => {
                let (rs, env2) = eval_list(args.subrange(1, args.len() as int), env1, fuel);
                match rs {
                    Ok(vs) => (Ok(seq![v] + vs), env2),
                    Err(x) => (Err(x), env2),
                }
            },
        }
    }
}

/// `SETQ`: binds a symbol to the value of an expression, and returns that value.
pub open spec fn setq_spec(args: Seq<ExprView>, env: Map<Seq<char>, ExprView>, fuel: nat) -> (Result<ExprView, EvalFault>, Map<Seq<char>, ExprView>)
    decreases fuel, 1int,
{
    if args.len() != 2 {
        (Err(EvalFault::MalformedSetq), env)
    } else {
        match args[0] {
            ExprView::Symbol(k) => {
                let (r, env1) = eval_spec(args[1], env, fuel);
                match r {
                    Ok(v) => (Ok(v), env1.insert(k, v)),
                    Err(x) => (Err(x), env1),
                }
            },
            other => (Err(EvalFault::NotASymbol(expr_text(other))), env),
        }
    }
}

/// `DEFUN`: binds a name to a function of the given parameters and unevaluated body, and
/// returns the name as a string.
pub open spec fn defun_spec(args: Seq<ExprView>, env: Map<Seq<char>, ExprView>) -> (Result<ExprView, EvalFault>, Map<Seq<char>, ExprView>) {
    if args.len() != 3 {
        (Err(EvalFault::MalformedDefun), env)
    } else {
        match args[0] {
            ExprView::Symbol(name) => match args[1] {
                ExprView::List(ps) => match first_non_symbol(ps) {
                    Some(x) => (Err(EvalFault::NotASymbol(expr_text(x))), env),
                    None => (
                        Ok(ExprView::Str(name)),
                        env.insert(name, ExprView::Lambda(symbol_names(ps), Box::new(args[2]))),
                    ),
                },
                _ => (Err(EvalFault::MalformedDefun), env),
            },
            other => (Err(EvalFault::NotASymbol(expr_text(other))), env),
        }
    }
}

/// Applies a function: the arguments are evaluated in the caller's environment, and the
/// body in a copy of it that binds the parameters; the copy is then dropped.
pub open spec fn lambda_spec(
    params: Seq<Seq<char>>,
    body: ExprView,
    args: Seq<ExprView>,
    env: Map<Seq<char>, ExprView>,
    fuel: nat,
) -> (Result<ExprView, EvalFault>, Map<Seq<char>, ExprView>)
    decreases fuel, args.len() + 1,
{
    if params.len() != args.len() {
        (Err(EvalFault::ArityMismatch(params.len(), args.len())), env)
    } else {
        let (ra, env1) = eval_list(args, env, fuel);
        match ra {
            Err(x) => (Err(x), env1),
            Ok(vals) => (eval_spec(body, bind(env1, params, vals), fuel).0, env1),
        }
    }
}

/// `r` is the outcome that `res` describes.
pub open spec fn outcome(r: Result<Expr, RispError>, res: Result<ExprView, EvalFault>) -> bool {
    match (r, res) {
        (Ok(e), Ok(v)) => e@ == v,
        (Err(RispError::Expr(x)), Err(f)) => x@ == f,
        _ => false,
    }
}

pub open spec fn outcomes(r: Result<Vec<Expr>, RispError>, res: Result<Seq<ExprView>, EvalFault>) -> bool {
    match (r, res) {
        (Ok(es), Ok(vs)) => views(es@) == vs,
        (Err(RispError::Expr(x)), Err(f)) => x@ == f,
        _ => false,
    }
}

fn expr_error(x: ExprErr) -> (r: Result<Expr, RispError>)
    ensures
        r matches Err(RispError::Expr(y)) && y == x,
{
    Err(RispError::Expr(x))
}

/// The numbers among `args`, all of which must be numbers.
fn parse_list_of_numbers(args: &Vec<Expr>) -> (r: Result<Vec<Number>, RispError>)
    ensures
        match first_non_number(views(args@)) {
            Some(x) => r matches Err(RispError::Expr(ExprErr::NotANumber(t))) && t@ == expr_text(x),
            None => r matches Ok(ns) && ns@ == numbers(views(args@)),
        },
{
    let ghost xs = views(args@);
    proof {
        lemma_views(args@);
    }
    let mut out: Vec<Number> = Vec::new();
    let mut i: usize = 0;
    assert(xs.subrange(0, xs.len() as int) =~= xs);
    while i < args.len()
        invariant
            i <= args@.len(),
            xs == views(args@),
            xs.len() == args@.len(),
            forall|k: int| 0 <= k < args@.len() ==> #[trigger] xs[k] == args@[k]@,
            first_non_number(xs) == first_non_number(xs.subrange(i as int, xs.len() as int)),
            out@.len() == i,
            out@ == numbers(xs.subrange(0, i as int)),
        decreases args.len() - i,
    {
        let ghost tail = xs.subrange(i as int, xs.len() as int);
        assert(tail.subrange(1, tail.len() as int) =~= xs.subrange(i + 1, xs.len() as int));
        match &args[i] {
            Expr::Number(n) => {
                if n.den <= 0 {
                    return Err(RispError::Expr(ExprErr::NotANumber(args[i].to_string())));
                }
                assert(xs[i as int] == args@[i as int]@);
                out.push(*n);
            },
            other => {
                return Err(RispError::Expr(ExprErr::NotANumber(other.to_string())));
            },
        }
        assert(out@ =~= numbers(xs.subrange(0, i + 1)));
        i = i + 1;
    }
    assert(xs.subrange(0, xs.len() as int) =~= xs);
    Ok(out)
}

/// The names among `args`, all of which must be symbols.
fn parse_list_of_symbols(args: &Vec<Expr>) -> (r: Result<Vec<String>, RispError>)
    ensures
        match first_non_symbol(views(args@)) {
            Some(x) => r matches Err(RispError::Expr(ExprErr::NotASymbol(t))) && t@ == expr_text(x),
            None => r matches Ok(ns) && names(ns@) == symbol_names(views(args@)),
        },
{
    let ghost xs = views(args@);
    proof {
        lemma_views(args@);
    }
    let mut out: Vec<String> = Vec::new();
    let mut i: usize = 0;
    assert(xs.subrange(0, xs.len() as int) =~= xs);
    while i < args.len()
        invariant
            i <= args@.len(),
            xs == views(args@),
            xs.len() == args@.len(),
            forall|k: int| 0 <= k < args@.len() ==> #[trigger] xs[k] == args@[k]@,
            first_non_symbol(xs) == first_non_symbol(xs.subrange(i as int, xs.len() as int)),
            out@.len() == i,
            names(out@) == symbol_names(xs.subrange(0, i as int)),
        decreases args.len() - i,
    {
        let ghost tail = xs.subrange(i as int, xs.len() as int);
        assert(tail.subrange(1, tail.len() as int) =~= xs.subrange(i + 1, xs.len() as int));
        match &args[i] {
            Expr::Symbol(name) => {
                assert(xs[i as int] == args@[i as int]@);
                let ghost before = out@;
                out.push(name.clone());
                assert forall|k: int| 0 <= k <= i implies #[trigger] names(out@)[k]
                    == symbol_names(xs.subrange(0, i + 1))[k] by {
                    if k < i {
                        assert(out@[k] == before[k]);
                        assert(names(before)[k] == symbol_names(xs.subrange(0, i as int))[k]);
                    }
                }
            },
            other => {
                return Err(RispError::Expr(ExprErr::NotASymbol(other.to_string())));
            },
        }
        assert(names(out@) =~= symbol_names(xs.subrange(0, i + 1)));
        i = i + 1;
    }
    assert(xs.subrange(0, xs.len() as int) =~= xs);
    Ok(out)
}

fn number_step(op: Builtin, a: &Number, b: &Number) -> (r: Option<Number>)
    requires
        a.wf(),
        b.wf(),
    ensures
        r == number_op(op, *a, *b),
        r matches Some(x) ==> x.wf(),
{
    match op {
        Builtin::Add => a.add(b),
        Builtin::Sub => a.sub(b),
        Builtin::Mul => a.mul(b),
        Builtin::Div => a.div(b),
    }
}

/// Applies a built-in operation to evaluated arguments.
pub fn apply_builtin(op: Builtin, args: &Vec<Expr>) -> (r: Result<Expr, RispError>)
    ensures
        outcome(r, apply_spec(op, views(args@))),
{
    let ns = parse_list_of_numbers(args);
    let ns = match ns {
        Ok(ns) => ns,
        Err(e) => return Err(e),
    };
    let ghost xs = views(args@);
    proof {
        lemma_views(args@);
        assert forall|k: int| 0 <= k < ns@.len() implies #[trigger] ns@[k].wf() by {
            lemma_all_numbers(xs, k);
        }
    }
    if ns.len() == 0 {
        return Err(RispError::Expr(ExprErr::NoOperands));
    }
    let mut acc = ns[0];
    let mut i: usize = 1;
    while i < ns.len()
        invariant
            1 <= i <= ns@.len(),
            acc.wf(),
            xs == views(args@),
            ns@ == numbers(xs),
            first_non_number(xs) is None,
            forall|k: int| 0 <= k < ns@.len() ==> #[trigger] ns@[k].wf(),
            fold_spec(op, ns@[0], ns@.subrange(1, ns@.len() as int))
                == fold_spec(op, acc, ns@.subrange(i as int, ns@.len() as int)),
        decreases ns.len() - i,
    {
        let ghost tail = ns@.subrange(i as int, ns@.len() as int);
        assert(tail.subrange(1, tail.len() as int) =~= ns@.subrange(i + 1, ns@.len() as int));
        assert(tail[0] == ns@[i as int]);
        match number_step(op, &acc, &ns[i]) {
            Some(a) => acc = a,
            None => {
                assert(fold_spec(op, acc, tail) is None);
                assert(numbers(xs) == ns@);
                assert(apply_spec(op, xs) == Err::<ExprView, EvalFault>(EvalFault::Arithmetic));
                return Err(RispError::Expr(ExprErr::Arithmetic));
            },
        }
        i = i + 1;
    }
    Ok(Expr::Number(acc))
}

proof fn lemma_all_numbers(xs: Seq<ExprView>, k: int)
    requires
        first_non_number(xs) is None,
        0 <= k < xs.len(),
    ensures
        is_number(xs[k]),
    decreases xs.len(),
{
    if k > 0 {
        let t = xs.subrange(1, xs.len() as int);
        lemma_all_numbers(t, k - 1);
        assert(t[k - 1] == xs[k]);
    }
}

/// The environment a session starts with: the four arithmetic operations.
pub fn default_env() -> (r: ExprEnv)
    ensures
        r.wf(),
        r@ == map![
            seq!['+'] => ExprView::Func(Builtin::Add),
            seq!['-'] => ExprView::Func(Builtin::Sub),
            seq!['*'] => ExprView::Func(Builtin::Mul),
            seq!['/'] => ExprView::Func(Builtin::Div),
        ],
{
    let mut env = ExprEnv::new();
    env.insert(single('+'), Expr::Func(Builtin::Add));
    env.insert(single('-'), Expr::Func(Builtin::Sub));
    env.insert(single('*'), Expr::Func(Builtin::Mul));
    env.insert(single('/'), Expr::Func(Builtin::Div));
    assert(env@ =~= map![
        seq!['+'] => ExprView::Func(Builtin::Add),
        seq!['-'] => ExprView::Func(Builtin::Sub),
        seq!['*'] => ExprView::Func(Builtin::Mul),
        seq!['/'] => ExprView::Func(Builtin::Div),
    ]);
    env
}

/// The bindings of `env`, as `name=value` separated by spaces.
fn print_env(env: &ExprEnv) -> String {
    let mut s = String::new();
    let mut i: usize = 0;
    while i < env.entries.len()
        decreases env.entries.len() - i,
    {
        if i > 0 {
            push_char(&mut s, ' ');
        }
        push_text(&mut s, env.entries[i].0.as_str());
        push_char(&mut s, '=');
        env.entries[i].1.write_to(&mut s);
        i = i + 1;
    }
    s
}

/// Evaluating a list of arguments gives one value for each.
pub proof fn lemma_eval_list_len(args: Seq<ExprView>, env: Map<Seq<char>, ExprView>, fuel: nat)
    ensures
        eval_list(args, env, fuel).0 matches Ok(vs) ==> vs.len() == args.len(),
    decreases args.len(),
{
    if args.len() > 0 {
        let env1 = eval_spec(args[0], env, fuel).1;
        lemma_eval_list_len(args.subrange(1, args.len() as int), env1, fuel);
    }
}

/// Evaluates expressions; `depth` is how many more levels evaluation may nest.
pub struct Evaluator {
    depth: u64,
}

/// The termination measure of one evaluation step: above those of the forms that a list
/// hands its elements to.
pub open spec fn width(e: ExprView) -> int {
    match e {
        ExprView::List(xs) => xs.len() as int + 3,
        _ => 3,
    }
}

impl Evaluator {
    /// How many more levels evaluation may nest.
    pub closed spec fn budget(&self) -> nat {
        self.depth as nat
    }

    /// An evaluator that lets evaluation nest `depth` levels deep.
    pub fn with_depth(depth: u64) -> (r: Evaluator)
        ensures
            r.budget() == depth,
    {
        Evaluator { depth }
    }

    /// How many more levels evaluation may nest.
    pub fn depth(&self) -> (r: u64)
        ensures
            r == self.budget(),
    {
        self.depth
    }

    pub fn new() -> (r: Evaluator)
        ensures
            r.budget() == MAX_DEPTH,
    {
        Evaluator { depth: MAX_DEPTH }
    }

    /// Evaluates `expr` in `env`.
    pub fn eval(&mut self, expr: &Expr, env: &mut ExprEnv) -> (r: Result<Expr, RispError>)
        requires
            old(env).wf(),
        ensures
            final(env).wf(),
            final(self).budget() == old(self).budget(),
            outcome(r, eval_spec(expr@, old(env)@, old(self).budget()).0),
            final(env)@ == eval_spec(expr@, old(env)@, old(self).budget()).1,
        decreases old(self).budget(), 0int,
    {
        if self.depth == 0 {
            return Err(RispError::Expr(ExprErr::TooDeep));
        }
        self.depth = self.depth - 1;
        let r = self.eval_nested(expr, env);
        self.depth = self.depth + 1;
        r
    }

    /// Evaluates `expr` one level down: `depth` has already been taken off.
    fn eval_nested(&mut self, expr: &Expr, env: &mut ExprEnv) -> (r: Result<Expr, RispError>)
        requires
            old(env).wf(),
            old(self).budget() < u64::MAX,
        ensures
            final(env).wf(),
            final(self).budget() == old(self).budget(),
            outcome(r, eval_spec(expr@, old(env)@, old(self).budget() + 1).0),
            final(env)@ == eval_spec(expr@, old(env)@, old(self).budget() + 1).1,
        decreases old(self).budget(), width(expr@),
    {
        match expr {
            Expr::Symbol(sym) => match env.get(sym) {
                Some(v) => Ok(v.duplicate()),
                None => {
                    let listing = print_env(env);
                    Err(RispError::Expr(ExprErr::Unbound { symbol: sym.clone(), env: listing }))
                },
            },
            Expr::List(list) => {
                proof {
                    lemma_views(list@);
                }
                if list.len() == 0 {
                    return Err(RispError::Expr(ExprErr::EmptyList));
                }
                let (head, rest) = list.as_slice().split_at(1);
                let first = &head[0];
                proof {
                    lemma_views(rest@);
                    assert(views(rest@) =~= views(list@).subrange(1, list@.len() as int));
                }
                match self.eval_builtin(first, rest, env) {
                    Some(r) => r,
                    None => {
                        let callee = self.eval(first, env)?;
                        match callee {
                            Expr::Func(op) => {
                                let vals = self.eval_args(rest, env)?;
                                apply_builtin(op, &vals)
                            },
                            Expr::Lambda(lambda) => self.eval_lambda(lambda, rest, env),
                            other => Err(RispError::Expr(ExprErr::NotCallable(other.to_string()))),
                        }
                    },
                }
            },
            Expr::Func(_) => Err(RispError::Expr(ExprErr::Invalid(expr.to_string()))),
            Expr::Lambda(_) => Err(RispError::Expr(ExprErr::Invalid(expr.to_string()))),
            _ => Ok(expr.duplicate()),
        }
    }

    /// Evaluates `args` from left to right.
    pub fn eval_args(&mut self, args: &[Expr], env: &mut ExprEnv) -> (r: Result<Vec<Expr>, RispError>)
        requires
            old(env).wf(),
        ensures
            final(env).wf(),
            final(self).budget() == old(self).budget(),
            outcomes(r, eval_list(views(args@), old(env)@, old(self).budget()).0),
            final(env)@ == eval_list(views(args@), old(env)@, old(self).budget()).1,
        decreases old(self).budget(), args@.len(),
    {
        let ghost xs = views(args@);
        let ghost f = self.budget();
        let ghost env0 = env@;
        proof {
            lemma_views(args@);
        }
        let mut out: Vec<Expr> = Vec::new();
        let mut i: usize = 0;
        assert(xs.subrange(0, xs.len() as int) =~= xs);
        while i < args.len()
            invariant
                i <= args@.len(),
                env.wf(),
                self.budget() == old(self).budget(),
                f == old(self).budget(),
                env0 == old(env)@,
                xs == views(args@),
                xs.len() == args@.len(),
                forall|k: int| 0 <= k < args@.len() ==> #[trigger] xs[k] == args@[k]@,
                ({
                    let (rest, env_end) = eval_list(xs.subrange(i as int, xs.len() as int), env@, f);
                    let whole = eval_list(xs, env0, f);
                    &&& whole.1 == env_end
                    &&& match rest {
                        Ok(vs) => whole.0 == Ok::<Seq<ExprView>, EvalFault>(views(out@) + vs),
                        Err(x) => whole.0 == Err::<Seq<ExprView>, EvalFault>(x),
                    }
                }),
            decreases args.len() - i,
        {
            let ghost tail = xs.subrange(i as int, xs.len() as int);
            assert(tail.subrange(1, tail.len() as int) =~= xs.subrange(i + 1, xs.len() as int));
            assert(tail[0] == args@[i as int]@);
            let v = self.eval(&args[i], env)?;
            proof {
                lemma_views(out@);
                lemma_views(out@.push(v));
                assert(views(out@.push(v)) =~= views(out@).push(v@));
                let (rest2, _) = eval_list(xs.subrange(i + 1, xs.len() as int), env@, f);
                if let Ok(vs) = rest2 {
                    assert(views(out@) + (seq![v@] + vs) =~= views(out@).push(v@) + vs);
                }
            }
            out.push(v);
            i = i + 1;
        }
        proof {
            assert(xs.subrange(i as int, xs.len() as int) =~= Seq::<ExprView>::empty());
            assert(views(out@) + Seq::<ExprView>::empty() =~= views(out@));
        }
        Ok(out)
    }

    /// Handles the special forms `SETQ` and `DEFUN`; `None` for any other operator.
    pub fn eval_builtin(&mut self, first: &Expr, args: &[Expr], env: &mut ExprEnv) -> (r: Option<Result<Expr, RispError>>)
        requires
            old(env).wf(),
        ensures
            final(env).wf(),
            final(self).budget() == old(self).budget(),
            first@ == ExprView::Symbol(setq_name()) ==> (r matches Some(x)
                && outcome(x, setq_spec(views(args@), old(env)@, old(self).budget()).0)
                && final(env)@ == setq_spec(views(args@), old(env)@, old(self).budget()).1),
            first@ == ExprView::Symbol(defun_name()) ==> (r matches Some(x)
                && outcome(x, defun_spec(views(args@), old(env)@).0)
                && final(env)@ == defun_spec(views(args@), old(env)@).1),
            first@ != ExprView::Symbol(setq_name()) && first@ != ExprView::Symbol(defun_name())
                ==> r is None && final(env)@ == old(env)@,
        decreases old(self).budget(), 2int,
    {
        match first {
            Expr::Symbol(symbol) => {
                let setq = String::from_str("SETQ");
                let defun = String::from_str("DEFUN");
                proof {
                    reveal_strlit("SETQ");
                    reveal_strlit("DEFUN");
                    assert(setq@ =~= setq_name());
                    assert(defun@ =~= defun_name());
                }
                if *symbol == setq {
                    Some(self.eval_setq(args, env))
                } else if *symbol == defun {
                    Some(self.eval_defun(args, env))
                } else {
                    None
                }
            },
            _ => None,
        }
    }

    /// Applies a user-defined function to unevaluated arguments.
    pub fn eval_lambda(&mut self, lambda: Lambda, outer_args: &[Expr], env: &mut ExprEnv) -> (r: Result<Expr, RispError>)
        requires
            old(env).wf(),
        ensures
            final(env).wf(),
            final(self).budget() == old(self).budget(),
            outcome(r, lambda_spec(names(lambda.args@), (*lambda.body)@, views(outer_args@), old(env)@, old(self).budget()).0),
            final(env)@ == lambda_spec(names(lambda.args@), (*lambda.body)@, views(outer_args@), old(env)@, old(self).budget()).1,
        decreases old(self).budget(), outer_args@.len() + 1,
    {
        proof {
            lemma_views(outer_args@);
        }
        if lambda.args.len() != outer_args.len() {
            return Err(RispError::Expr(ExprErr::ArityMismatch {
                expected: lambda.args.len(),
                actual: outer_args.len(),
            }));
        }
        let vals = self.eval_args(outer_args, env)?;
        proof {
            lemma_eval_list_len(views(outer_args@), old(env)@, old(self).budget());
            lemma_views(vals@);
        }
        let ghost params = names(lambda.args@);
        let ghost env1 = env@;
        let mut local = env.duplicate();
        let mut i: usize = 0;
        assert(params.subrange(0, params.len() as int) =~= params);
        assert(views(vals@).subrange(0, vals@.len() as int) =~= views(vals@));
        while i < lambda.args.len()
            invariant
                i <= lambda.args@.len(),
                lambda.args@.len() == vals@.len(),
                params == names(lambda.args@),
                views(vals@).len() == vals@.len(),
                forall|k: int| 0 <= k < vals@.len() ==> #[trigger] views(vals@)[k] == vals@[k]@,
                local.wf(),
                bind(env1, params, views(vals@)) == bind(
                    local@,
                    params.subrange(i as int, params.len() as int),
                    views(vals@).subrange(i as int, vals@.len() as int),
                ),
            decreases lambda.args.len() - i,
        {
            let ghost ps = params.subrange(i as int, params.len() as int);
            let ghost vs = views(vals@).subrange(i as int, vals@.len() as int);
            assert(ps.subrange(1, ps.len() as int) =~= params.subrange(i + 1, params.len() as int));
            assert(vs.subrange(1, vs.len() as int) =~= views(vals@).subrange(i + 1, vals@.len() as int));
            local.insert(lambda.args[i].clone(), vals[i].duplicate());
            i = i + 1;
        }
        proof {
            assert(params.subrange(i as int, params.len() as int) =~= Seq::<Seq<char>>::empty());
        }
        self.eval(&*lambda.body, &mut local)
    }

    /// Defines a function: `(DEFUN name (params...) body)`.
    pub fn eval_defun(&mut self, args: &[Expr], env: &mut ExprEnv) -> (r: Result<Expr, RispError>)
        requires
            old(env).wf(),
        ensures
            final(env).wf(),
            final(self).budget() == old(self).budget(),
            outcome(r, defun_spec(views(args@), old(env)@).0),
            final(env)@ == defun_spec(views(args@), old(env)@).1,
    {
        proof {
            lemma_views(args@);
        }
        if args.len() != 3 {
            return Err(RispError::Expr(ExprErr::MalformedDefun));
        }
        match &args[0] {
            Expr::Symbol(name) => match &args[1] {
                Expr::List(ps) => {
                    let params = parse_list_of_symbols(ps)?;
                    let body = Rc::new(args[2].duplicate());
                    let lambda = Lambda { args: params, body };
                    env.insert(name.clone(), Expr::Lambda(lambda));
                    Ok(Expr::String(name.clone()))
                },
                _ => Err(RispError::Expr(ExprErr::MalformedDefun)),
            },
            other => Err(RispError::Expr(ExprErr::NotASymbol(other.to_string()))),
        }
    }

    /// Assigns a value: `(SETQ name expr)`.
    pub fn eval_setq(&mut self, args: &[Expr], env: &mut ExprEnv) -> (r: Result<Expr, RispError>)
        requires
            old(env).wf(),
        ensures
            final(env).wf(),
            final(self).budget() == old(self).budget(),
            outcome(r, setq_spec(views(args@), old(env)@, old(self).budget()).0),
            final(env)@ == setq_spec(views(args@), old(env)@, old(self).budget()).1,
        decreases old(self).budget(), 1int,
    {
        proof {
            lemma_views(args@);
        }
        if args.len() != 2 {
            return Err(RispError::Expr(ExprErr::MalformedSetq));
        }
        match &args[0] {
            Expr::Symbol(key) => {
                let value = self.eval(&args[1], env)?;
                let result = value.duplicate();
                env.insert(key.clone(), value);
                Ok(result)
            },
            other => Err(RispError::Expr(ExprErr::NotASymbol(other.to_string()))),
        }
    }
}

} // verus!
