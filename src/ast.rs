//! Expressions: the syntax tree and the values of the language.
use vstd::prelude::*;
use std::rc::Rc;
use crate::number::{Number, number_text};
use crate::text::{push_char, push_text};

verus! {

/// A built-in arithmetic operation.
#[derive(Clone, Copy, Debug, PartialEq, Eq, Structural)]
pub enum Builtin {
    Add,
    Sub,
    Mul,
    Div,
}

/// A user-defined function: parameter names and an unevaluated body.
pub struct Lambda {
    pub args: Vec<String>,
    pub body: Rc<Expr>,
}

/// An expression, which is also a value.
pub enum Expr {
    Number(Number),
    String(String),
    Symbol(String),
    List(Vec<Expr>),
    True,
    Nil,
    Func(Builtin),
    Lambda(Lambda),
}

/// The mathematical content of an expression.
pub enum ExprView {
    Number(Number),
    Str(Seq<char>),
    Symbol(Seq<char>),
    List(Seq<ExprView>),
    True,
    Nil,
    Func(Builtin),
    Lambda(Seq<Seq<char>>, Box<ExprView>),
}

pub open spec fn names(args: Seq<String>) -> Seq<Seq<char>> {
    args.map_values(|a: String| a@)
}

/// The views of a sequence of expressions.
pub open spec fn views(s: Seq<Expr>) -> Seq<ExprView>
    decreases s,
{
    if s.len() == 0 {
        seq![]
    } else {
        views(s.subrange(0, s.len() - 1)).push(s[s.len() - 1].view())
    }
}

impl Expr {
    pub open spec fn view(&self) -> ExprView
        decreases self,
    {
        match self {
            Expr::Number(n) => ExprView::Number(*n),
            Expr::String(s) => ExprView::Str(s@),
            Expr::Symbol(s) => ExprView::Symbol(s@),
            Expr::List(v) => ExprView::List(views(v@)),
            Expr::True => ExprView::True,
            Expr::Nil => ExprView::Nil,
            Expr::Func(b) => ExprView::Func(*b),
            Expr::Lambda(l) => ExprView::Lambda(names(l.args@), Box::new((*l.body).view())),
        }
    }
}

/// The printed form of an expression.
pub open spec fn expr_text(e: ExprView) -> Seq<char>
    decreases e,
{
    match e {
        ExprView::Number(n) => number_text(n),
        ExprView::Str(s) => s,
        ExprView::Symbol(s) => s,
        ExprView::List(xs) => seq!['('] + items_text(xs) + seq![')'],
        ExprView::True => seq!['T'],
        ExprView::Nil => seq!['N', 'I', 'L'],
        ExprView::Func(_) => seq!['L', 'A', 'M', 'B', 'D', 'A'],
        ExprView::Lambda(_, _) => seq!['L', 'A', 'M', 'B', 'D', 'A'],
    }
}

/// The printed forms of `xs`, separated by single spaces.
pub open spec fn items_text(xs: Seq<ExprView>) -> Seq<char>
    decreases xs,
{
    if xs.len() == 0 {
        seq![]
    } else if xs.len() == 1 {
        expr_text(xs[0])
    } else {
        items_text(xs.subrange(0, xs.len() - 1)) + seq![' '] + expr_text(xs[xs.len() - 1])
    }
}

/// Equality of expressions: structural on numbers, strings, symbols, lists and `Nil`;
/// `True` and function values equal nothing, not even themselves.
pub open spec fn expr_eq(a: ExprView, b: ExprView) -> bool
    decreases a,
{
    match a {
        ExprView::Number(x) => b matches ExprView::Number(y) && x == y,
        ExprView::Str(x) => b matches ExprView::Str(y) && x == y,
        ExprView::Symbol(x) => b matches ExprView::Symbol(y) && x == y,
        ExprView::List(xs) => b matches ExprView::List(ys) && items_eq(xs, ys),
        ExprView::Nil => b is Nil,
        _ => false,
    }
}

/// Element-wise equality of two lists.
pub open spec fn items_eq(xs: Seq<ExprView>, ys: Seq<ExprView>) -> bool
    decreases xs,
{
    if xs.len() != ys.len() {
        false
    } else if xs.len() == 0 {
        true
    } else {
        expr_eq(xs[0], ys[0]) && items_eq(
            xs.subrange(1, xs.len() as int),
            ys.subrange(1, ys.len() as int),
        )
    }
}

pub proof fn lemma_views(s: Seq<Expr>)
    ensures
        views(s).len() == s.len(),
        forall|i: int| 0 <= i < s.len() ==> #[trigger] views(s)[i] == s[i].view(),
    decreases s.len(),
{
    if s.len() > 0 {
        lemma_views(s.subrange(0, s.len() - 1));
        assert forall|i: int| 0 <= i < s.len() implies #[trigger] views(s)[i] == s[i].view() by {
            if i < s.len() - 1 {
                assert(s.subrange(0, s.len() - 1)[i] == s[i]);
            }
        }
    }
}

/// Relies on `Rc::clone`: a second handle on the same expression.
#[verifier::external_body]
fn share(body: &Rc<Expr>) -> (r: Rc<Expr>)
    ensures
        *r == **body,
{
    Rc::clone(body)
}

impl Expr {
    /// Appends the printed form of this expression to `s`.
    pub fn write_to(&self, s: &mut String)
        ensures
            final(s)@ == old(s)@ + expr_text(self@),
        decreases self@,
    {
        match self {
            Expr::Number(n) => n.write_to(s),
            Expr::String(t) => push_text(s, t.as_str()),
            Expr::Symbol(t) => push_text(s, t.as_str()),
            Expr::List(v) => {
                let ghost start = s@;
                proof {
                    lemma_views(v@);
                }
                push_char(s, '(');
                let mut i: usize = 0;
                while i < v.len()
                    invariant
                        0 <= i <= v@.len(),
                        views(v@).len() == v@.len(),
                        self@ == ExprView::List(views(v@)),
                        forall|k: int| 0 <= k < v@.len() ==> #[trigger] views(v@)[k] == v@[k].view(),
                        s@ == start + seq!['('] + items_text(views(v@).subrange(0, i as int)),
                    decreases v.len() - i,
                {
                    let ghost before = s@;
                    if i > 0 {
                        push_char(s, ' ');
                    }
                    proof {
                        let xs = views(v@);
                        assert(decreases_to!(self@ => self@->List_0));
                        assert(decreases_to!(xs => xs[i as int]));
                    }
                    v[i].write_to(s);
                    proof {
                        let xs = views(v@).subrange(0, i + 1);
                        assert(xs.subrange(0, i as int) =~= views(v@).subrange(0, i as int));
                        assert(xs[i as int] == v@[i as int].view());
                        if i == 0 {
                            assert(items_text(xs) == expr_text(xs[0]));
                            assert(items_text(views(v@).subrange(0, 0)) =~= seq![]);
                        }
                    }
                    i = i + 1;
                }
                push_char(s, ')');
                assert(views(v@).subrange(0, v@.len() as int) =~= views(v@));
            },
            Expr::True => push_char(s, 'T'),
            Expr::Nil => {
                push_char(s, 'N');
                push_char(s, 'I');
                push_char(s, 'L');
            },
            _ => {
                push_char(s, 'L');
                push_char(s, 'A');
                push_char(s, 'M');
                push_char(s, 'B');
                push_char(s, 'D');
                push_char(s, 'A');
            },
        }
        assert(final(s)@ =~= old(s)@ + expr_text(self@));
    }

    /// The printed form of this expression.
    pub fn to_string(&self) -> (r: String)
        ensures
            r@ == expr_text(self@),
    {
        let mut s = String::new();
        self.write_to(&mut s);
        assert(s@ =~= expr_text(self@));
        s
    }

    /// A copy of this expression; a function body is shared, not copied.
    pub fn duplicate(&self) -> (r: Expr)
        ensures
            r@ == self@,
        decreases self@,
    {
        match self {
            Expr::Number(n) => Expr::Number(*n),
            Expr::String(t) => Expr::String(t.clone()),
            Expr::Symbol(t) => Expr::Symbol(t.clone()),
            Expr::List(v) => {
                proof {
                    lemma_views(v@);
                }
                let mut out: Vec<Expr> = Vec::new();
                let mut i: usize = 0;
                while i < v.len()
                    invariant
                        0 <= i <= v@.len(),
                        out@.len() == i,
                        views(v@).len() == v@.len(),
                        self@ == ExprView::List(views(v@)),
                        forall|k: int| 0 <= k < v@.len() ==> #[trigger] views(v@)[k] == v@[k].view(),
                        forall|k: int| 0 <= k < i ==> #[trigger] out@[k].view() == v@[k].view(),
                    decreases v.len() - i,
                {
                    proof {
                        let xs = views(v@);
                        assert(decreases_to!(self@ => self@->List_0));
                        assert(decreases_to!(xs => xs[i as int]));
                    }
                    let e = v[i].duplicate();
                    out.push(e);
                    i = i + 1;
                }
                proof {
                    lemma_views(out@);
                    assert(views(out@) =~= views(v@));
                }
                Expr::List(out)
            },
            Expr::True => Expr::True,
            Expr::Nil => Expr::Nil,
            Expr::Func(b) => Expr::Func(*b),
            Expr::Lambda(l) => {
                let mut args: Vec<String> = Vec::new();
                let mut i: usize = 0;
                while i < l.args.len()
                    invariant
                        0 <= i <= l.args@.len(),
                        args@.len() == i,
                        forall|k: int| 0 <= k < i ==> #[trigger] args@[k]@ == l.args@[k]@,
                    decreases l.args.len() - i,
                {
                    args.push(l.args[i].clone());
                    i = i + 1;
                }
                assert(names(args@) =~= names(l.args@));
                Expr::Lambda(Lambda { args, body: share(&l.body) })
            },
        }
    }

    /// Whether this expression equals `other`, in the sense of `expr_eq`.
    pub fn same(&self, other: &Expr) -> (r: bool)
        ensures
            r == expr_eq(self@, other@),
        decreases self@,
    {
        match (self, other) {
            (Expr::Number(x), Expr::Number(y)) => x.num == y.num && x.den == y.den,
            (Expr::String(x), Expr::String(y)) => *x == *y,
            (Expr::Symbol(x), Expr::Symbol(y)) => *x == *y,
            (Expr::Nil, Expr::Nil) => true,
            (Expr::List(v), Expr::List(w)) => {
                proof {
                    lemma_views(v@);
                    lemma_views(w@);
                }
                if v.len() != w.len() {
                    return false;
                }
                let ghost xs = views(v@);
                let ghost ys = views(w@);
                let mut i: usize = 0;
                assert(xs.subrange(0, xs.len() as int) =~= xs);
                assert(ys.subrange(0, ys.len() as int) =~= ys);
                while i < v.len()
                    invariant
                        0 <= i <= v@.len(),
                        v@.len() == w@.len(),
                        xs == views(v@),
                        ys == views(w@),
                        xs.len() == v@.len(),
                        ys.len() == w@.len(),
                        self@ == ExprView::List(xs),
                        other@ == ExprView::List(ys),
                        forall|k: int| 0 <= k < v@.len() ==> #[trigger] xs[k] == v@[k].view(),
                        forall|k: int| 0 <= k < w@.len() ==> #[trigger] ys[k] == w@[k].view(),
                        items_eq(xs, ys) == items_eq(
                            xs.subrange(i as int, xs.len() as int),
                            ys.subrange(i as int, ys.len() as int),
                        ),
                    decreases v.len() - i,
                {
                    let ghost xt = xs.subrange(i as int, xs.len() as int);
                    let ghost yt = ys.subrange(i as int, ys.len() as int);
                    assert(xt.subrange(1, xt.len() as int) =~= xs.subrange(i + 1, xs.len() as int));
                    assert(yt.subrange(1, yt.len() as int) =~= ys.subrange(i + 1, ys.len() as int));
                    assert(xt[0] == xs[i as int]);
                    assert(yt[0] == ys[i as int]);
                    proof {
                        assert(decreases_to!(self@ => self@->List_0));
                        assert(decreases_to!(xs => xs[i as int]));
                    }
                    if !v[i].same(&w[i]) {
                        return false;
                    }
                    i = i + 1;
                }
                true
            },
            _ => false,
        }
    }
}

} // verus!

verus! {

impl PartialEq for Expr {
    fn eq(&self, other: &Expr) -> (r: bool) {
        self.same(other)
    }
}

impl vstd::std_specs::cmp::PartialEqSpecImpl for Expr {
    open spec fn obeys_eq_spec() -> bool {
        true
    }

    open spec fn eq_spec(&self, other: &Expr) -> bool {
        expr_eq(self@, other@)
    }
}

} // verus!
