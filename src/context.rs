use crate::text::str_eq;
use crate::value::{CelType, Val};
use vstd::prelude::*;

verus! {

/// A binding frame with an optional parent frame. Lookups search this frame
/// first, then the parent chain. A child only borrows its parent, so nothing
/// written into the child can reach the parent.
pub struct Context<'a> {
    vars: Vec<(String, CelType)>,
    parent: Option<&'a Context<'a>>,
}

/// The bindings of one frame; a later binding of a name shadows an earlier one.
pub open spec fn frame_bindings(s: Seq<(String, CelType)>) -> Map<Seq<char>, Val>
    decreases s.len(),
{
    if s.len() == 0 {
        Map::empty()
    } else {
        frame_bindings(s.subrange(0, s.len() - 1)).insert(s[s.len() - 1].0@, s[s.len() - 1].1.view())
    }
}

/// In a frame, the binding of `n` is the last entry that names `n`.
proof fn lemma_frame_last(s: Seq<(String, CelType)>, n: Seq<char>, k: int)
    requires
        0 <= k < s.len(),
        s[k].0@ == n,
        forall|j: int| k < j < s.len() ==> s[j].0@ != n,
    ensures
        frame_bindings(s).contains_key(n),
        frame_bindings(s)[n] == s[k].1.view(),
    decreases s.len(),
{
    if k < s.len() - 1 {
        let p = s.subrange(0, s.len() - 1);
        assert forall|j: int| k < j < p.len() implies p[j].0@ != n by {
            assert(p[j] == s[j]);
        }
        lemma_frame_last(p, n, k);
    }
}

/// A name that no entry of a frame carries is not bound there.
proof fn lemma_frame_absent(s: Seq<(String, CelType)>, n: Seq<char>)
    requires
        forall|j: int| 0 <= j < s.len() ==> s[j].0@ != n,
    ensures
        !frame_bindings(s).contains_key(n),
    decreases s.len(),
{
    if s.len() > 0 {
        let p = s.subrange(0, s.len() - 1);
        assert forall|j: int| 0 <= j < p.len() implies p[j].0@ != n by {
            assert(p[j] == s[j]);
        }
        lemma_frame_absent(p, n);
    }
}

impl<'a> Context<'a> {
    /// Every name visible from this frame, with the value it resolves to.
    pub closed spec fn bindings(&self) -> Map<Seq<char>, Val>
        decreases self,
    {
        let base = match self.parent {
            Some(p) => p.bindings(),
            None => Map::empty(),
        };
        base.union_prefer_right(frame_bindings(self.vars@))
    }

    /// An empty root frame.
    pub fn new() -> (r: Context<'a>)
        ensures
            r.bindings() == Map::<Seq<char>, Val>::empty(),
    {
        let r = Context { vars: Vec::new(), parent: None };
        assert(r.bindings() =~= Map::<Seq<char>, Val>::empty());
        r
    }

    /// A new frame under `self`: it sees what `self` sees and holds nothing yet.
    pub fn child(&'a self) -> (r: Context<'a>)
        ensures
            r.bindings() == self.bindings(),
    {
        let r = Context { vars: Vec::new(), parent: Some(self) };
        assert(r.bindings() =~= self.bindings());
        r
    }

    /// Binds `name` to `value` in this frame, shadowing any earlier binding.
    pub fn add_variable(&mut self, name: &str, value: CelType)
        ensures
            final(self).bindings() == old(self).bindings().insert(name@, value.view()),
    {
        let ghost old_vars = self.vars@;
        self.vars.push((name.to_owned(), value));
        proof {
            assert(self.vars@.subrange(0, self.vars@.len() - 1) =~= old_vars);
            assert(self.bindings() =~= old(self).bindings().insert(name@, value.view()));
        }
    }

    /// The value `name` resolves to, searching this frame and then its parents.
    pub fn get_variable(&self, name: &str) -> (r: Option<CelType>)
        ensures
            r is Some <==> self.bindings().contains_key(name@),
            r is Some ==> r->0.view() == self.bindings()[name@],
        decreases self,
    {
        let mut j: usize = self.vars.len();
        while j > 0
            invariant
                j <= self.vars.len(),
                forall|k: int| j <= k < self.vars.len() ==> self.vars@[k].0@ != name@,
            decreases j,
        {
            if str_eq(self.vars[j - 1].0.as_str(), name) {
                proof {
                    lemma_frame_last(self.vars@, name@, j - 1);
                }
                return Some(self.vars[j - 1].1.copy());
            }
            j -= 1;
        }
        proof {
            lemma_frame_absent(self.vars@, name@);
        }
        match self.parent {
            Some(p) => {
                proof {
                    assert(decreases_to!(self => self.parent));
                }
                p.get_variable(name)
            },
            None => None,
        }
    }
}

impl<'a> Default for Context<'a> {
    /// An empty root frame.
    fn default() -> (r: Context<'a>)
        ensures
            r.bindings() == Map::<Seq<char>, Val>::empty(),
    {
        Context::new()
    }
}

} // verus!
