//! The evaluation context: name bindings threaded through every filter
//! stage. A context is never mutated once shared; a stage that introduces
//! bindings derives a new context value.

use vstd::prelude::*;
use crate::filter::{Filter, FModel, fmodel, clone_filter};

verus! {

/// The model of a context: the bindings in the order they were added;
/// the last binding of a name shadows earlier ones.
pub type CtxModel = Seq<(Seq<char>, FModel)>;

/// Name lookup: the most recently added binding wins.
pub open spec fn ctx_lookup(c: CtxModel, n: Seq<char>) -> Option<FModel>
    decreases c.len(),
{
    if c.len() == 0 {
        Option::None
    } else if c.last().0 == n {
        Option::Some(c.last().1)
    } else {
        ctx_lookup(c.drop_last(), n)
    }
}

/// The environment of name bindings visible to a filter's evaluation.
pub struct Context {
    bindings: Vec<(String, Filter)>,
}

impl View for Context {
    type V = CtxModel;

    closed spec fn view(&self) -> CtxModel {
        Seq::new(self.bindings@.len(), |i: int| (self.bindings@[i].0@, fmodel(self.bindings@[i].1)))
    }
}

impl Context {
    /// The empty context.
    pub fn new() -> (r: Context)
        ensures
            r@ == Seq::<(Seq<char>, FModel)>::empty(),
    {
        let c = Context { bindings: Vec::new() };
        proof {
            assert(c@ =~= Seq::<(Seq<char>, FModel)>::empty());
        }
        c
    }

    /// An identical context; contexts are shared by copy, never mutated.
    pub fn duplicate(&self) -> (r: Context)
        ensures
            r@ == self@,
    {
        let n = self.bindings.len();
        let mut out: Vec<(String, Filter)> = Vec::new();
        let mut i: usize = 0;
        while i < n
            invariant
                n == self.bindings@.len(),
                i <= n,
                out@.len() == i,
                forall|j: int| 0 <= j < i ==> out@[j].0@ == self.bindings@[j].0@
                    && fmodel(out@[j].1) == fmodel(self.bindings@[j].1),
            decreases n - i,
        {
            let name = self.bindings[i].0.clone();
            let f = clone_filter(&self.bindings[i].1);
            out.push((name, f));
            i += 1;
        }
        let c = Context { bindings: out };
        proof {
            assert(c@ =~= self@);
        }
        c
    }

    /// A new context extending this one with a binding of `name` to the
    /// filter `f`; the newest binding shadows older ones of the same name.
    pub fn with_binding(&self, name: &String, f: &Filter) -> (r: Context)
        ensures
            r@ == self@.push((name@, fmodel(*f))),
    {
        let mut c = self.duplicate();
        c.bindings.push((name.clone(), clone_filter(f)));
        proof {
            assert(c@ =~= self@.push((name@, fmodel(*f))));
        }
        c
    }

    /// Looks a name up, per `ctx_lookup`: the newest binding wins.
    pub fn lookup(&self, name: &String) -> (r: Option<&Filter>)
        ensures
            match r {
                Option::Some(g) => ctx_lookup(self@, name@) == Option::Some(fmodel(*g)),
                Option::None => ctx_lookup(self@, name@) == Option::None::<FModel>,
            },
    {
        let n = self.bindings.len();
        proof {
            assert(self@.take(n as int) =~= self@);
        }
        let mut i: usize = n;
        while i > 0
            invariant
                n == self.bindings@.len(),
                i <= n,
                ctx_lookup(self@, name@) == ctx_lookup(self@.take(i as int), name@),
            decreases i,
        {
            proof {
                lemma_ctx_lookup_take(self@, name@, i as int);
            }
            if self.bindings[i - 1].0 == *name {
                proof {
                    assert(self@.take(i as int).last() == (name@, fmodel(self.bindings@[i - 1].1)));
                }
                return Option::Some(&self.bindings[i - 1].1);
            }
            proof {
                assert(self@.take(i as int).last().0 != name@);
                assert(self@.take(i as int).drop_last() =~= self@.take(i - 1));
            }
            i -= 1;
        }
        proof {
            assert(self@.take(0) =~= Seq::<(Seq<char>, FModel)>::empty());
        }
        Option::None
    }
}

proof fn lemma_ctx_lookup_take(c: CtxModel, n: Seq<char>, i: int)
    requires
        0 < i <= c.len(),
    ensures
        c.take(i).len() == i,
        c.take(i).last() == c[i - 1],
{
}

} // verus!
