//! The environment: a mapping from symbol names to values.
use vstd::prelude::*;
use crate::ast::{Expr, ExprView};

verus! {

/// The mapping that a list of bindings stands for; a later binding of a name wins.
pub open spec fn env_map(es: Seq<(String, Expr)>) -> Map<Seq<char>, ExprView>
    decreases es.len(),
{
    if es.len() == 0 {
        Map::empty()
    } else {
        let last = es[es.len() - 1];
        env_map(es.subrange(0, es.len() - 1)).insert(last.0@, last.1@)
    }
}

pub open spec fn unique_names(es: Seq<(String, Expr)>) -> bool {
    forall|i: int, j: int| 0 <= i < j < es.len() ==> es[i].0@ != es[j].0@
}

/// With distinct names, the mapping holds exactly the listed names, each with its value.
pub proof fn lemma_env_map(es: Seq<(String, Expr)>)
    requires
        unique_names(es),
    ensures
        forall|i: int| 0 <= i < es.len() ==> #[trigger] env_map(es).contains_key(es[i].0@)
            && env_map(es)[es[i].0@] == es[i].1@,
        forall|k: Seq<char>| #[trigger] env_map(es).contains_key(k) ==> exists|i: int|
            0 <= i < es.len() && es[i].0@ == k,
    decreases es.len(),
{
    if es.len() > 0 {
        let pre = es.subrange(0, es.len() - 1);
        lemma_env_map(pre);
        let last = es[es.len() - 1];
        assert forall|i: int| 0 <= i < es.len() implies #[trigger] env_map(es).contains_key(es[i].0@)
            && env_map(es)[es[i].0@] == es[i].1@ by {
            if i < es.len() - 1 {
                assert(pre[i] == es[i]);
            }
        }
        assert forall|k: Seq<char>| #[trigger] env_map(es).contains_key(k) implies exists|i: int|
            0 <= i < es.len() && es[i].0@ == k by {
            if k != last.0@ {
                let i = choose|i: int| 0 <= i < pre.len() && pre[i].0@ == k;
                assert(es[i] == pre[i]);
            }
        }
    }
}

/// Two lists of bindings with the same names and values stand for the same mapping.
pub proof fn lemma_env_map_same(a: Seq<(String, Expr)>, b: Seq<(String, Expr)>)
    requires
        a.len() == b.len(),
        forall|i: int| 0 <= i < a.len() ==> #[trigger] a[i].0@ == b[i].0@ && a[i].1@ == b[i].1@,
    ensures
        env_map(a) == env_map(b),
    decreases a.len(),
{
    if a.len() > 0 {
        let pa = a.subrange(0, a.len() - 1);
        let pb = b.subrange(0, b.len() - 1);
        assert forall|i: int| 0 <= i < pa.len() implies #[trigger] pa[i].0@ == pb[i].0@ && pa[i].1@ == pb[i].1@ by {
            assert(pa[i] == a[i] && pb[i] == b[i]);
        }
        lemma_env_map_same(pa, pb);
        assert(a[a.len() - 1].0@ == b[b.len() - 1].0@);
    }
}

/// A symbol environment; each name is bound at most once.
pub struct ExprEnv {
    pub entries: Vec<(String, Expr)>,
}

impl View for ExprEnv {
    type V = Map<Seq<char>, ExprView>;

    open spec fn view(&self) -> Map<Seq<char>, ExprView> {
        env_map(self.entries@)
    }
}

impl ExprEnv {
    pub open spec fn wf(&self) -> bool {
        unique_names(self.entries@)
    }

    /// An environment with no bindings.
    pub fn new() -> (r: ExprEnv)
        ensures
            r.wf(),
            r@ == Map::<Seq<char>, ExprView>::empty(),
    {
        ExprEnv { entries: Vec::new() }
    }

    fn find(&self, name: &String) -> (r: Option<usize>)
        ensures
            r matches Some(i) ==> i < self.entries@.len() && self.entries@[i as int].0@ == name@,
            r is None ==> forall|i: int| 0 <= i < self.entries@.len() ==> self.entries@[i].0@ != name@,
    {
        let mut i: usize = 0;
        while i < self.entries.len()
            invariant
                i <= self.entries@.len(),
                forall|k: int| 0 <= k < i ==> self.entries@[k].0@ != name@,
            decreases self.entries.len() - i,
        {
            if self.entries[i].0 == *name {
                return Some(i);
            }
            i = i + 1;
        }
        None
    }

    /// The value bound to `name`, if any.
    pub fn get(&self, name: &String) -> (r: Option<&Expr>)
        requires
            self.wf(),
        ensures
            r is Some <==> self@.contains_key(name@),
            r matches Some(e) ==> e@ == self@[name@],
    {
        proof {
            lemma_env_map(self.entries@);
        }
        match self.find(name) {
            Some(i) => {
                assert(env_map(self.entries@).contains_key(self.entries@[i as int].0@));
                Some(&self.entries[i].1)
            },
            None => None,
        }
    }

    /// Binds `name` to `value`, replacing an earlier binding of it.
    pub fn insert(&mut self, name: String, value: Expr)
        requires
            old(self).wf(),
        ensures
            final(self).wf(),
            final(self)@ == old(self)@.insert(name@, value@),
    {
        let ghost es = self.entries@;
        let ghost k = name@;
        let ghost v = value@;
        proof {
            lemma_env_map(es);
        }
        match self.find(&name) {
            Some(i) => {
                self.entries.set(i, (name, value));
                proof {
                    let es2 = self.entries@;
                    assert(unique_names(es2));
                    lemma_env_map(es2);
                    assert(env_map(es2).contains_key(es2[i as int].0@));
                    assert forall|key: Seq<char>| #[trigger] env_map(es2).contains_key(key)
                        == env_map(es).insert(k, v).contains_key(key) by {
                        if env_map(es2).contains_key(key) {
                            let j = choose|j: int| 0 <= j < es2.len() && es2[j].0@ == key;
                            if j != i {
                                assert(es2[j] == es[j]);
                                assert(env_map(es).contains_key(es[j].0@));
                            }
                        }
                        if key != k && env_map(es).contains_key(key) {
                            let j = choose|j: int| 0 <= j < es.len() && es[j].0@ == key;
                            assert(es2[j] == es[j]);
                            assert(env_map(es2).contains_key(es2[j].0@));
                        }
                    }
                    assert forall|key: Seq<char>| #[trigger] env_map(es2).contains_key(key)
                        implies env_map(es2)[key] == env_map(es).insert(k, v)[key] by {
                        let j = choose|j: int| 0 <= j < es2.len() && es2[j].0@ == key;
                        assert(env_map(es2).contains_key(es2[j].0@));
                        if j != i {
                            assert(es2[j] == es[j]);
                            assert(env_map(es).contains_key(es[j].0@));
                        }
                    }
                    assert(env_map(es2) =~= env_map(es).insert(k, v));
                }
            },
            None => {
                self.entries.push((name, value));
                proof {
                    let es2 = self.entries@;
                    assert(es2.subrange(0, es2.len() - 1) =~= es);
                }
            },
        }
    }

    /// A copy of this environment.
    pub fn duplicate(&self) -> (r: ExprEnv)
        requires
            self.wf(),
        ensures
            r.wf(),
            r@ == self@,
    {
        let mut out: Vec<(String, Expr)> = Vec::new();
        let mut i: usize = 0;
        while i < self.entries.len()
            invariant
                i <= self.entries@.len(),
                out@.len() == i,
                forall|k: int| 0 <= k < i ==> #[trigger] out@[k].0@ == self.entries@[k].0@
                    && out@[k].1@ == self.entries@[k].1@,
            decreases self.entries.len() - i,
        {
            let name = self.entries[i].0.clone();
            let value = self.entries[i].1.duplicate();
            out.push((name, value));
            i = i + 1;
        }
        proof {
            lemma_env_map_same(out@, self.entries@);
            assert forall|a: int, b: int| 0 <= a < b < out@.len() implies out@[a].0@ != out@[b].0@ by {
                assert(out@[a].0@ == self.entries@[a].0@);
                assert(out@[b].0@ == self.entries@[b].0@);
            }
        }
        ExprEnv { entries: out }
    }
}

} // verus!
