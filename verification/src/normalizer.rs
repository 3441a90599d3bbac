//! The session-space normalizer: a compact run-length record of every local
//! ID the local session has generated as a local (rather than as an eager
//! final). Runs are appended in generation order and adjacent runs are
//! coalesced when a new run immediately follows the previous run's last local.

use vstd::prelude::*;

use crate::id_types::LocalId;

verus! {

/// Every run ends at or before the normalizer's end generation count.
pub proof fn lemma_normalizer_run_bound(n: SessionSpaceNormalizer, i: int)
    requires
        n.wf(),
        0 <= i < n.runs().len(),
    ensures
        n.runs()[i].0.gen() + n.runs()[i].1 <= n.end_gen(),
    decreases n.runs().len() - i,
{
    if i < n.runs().len() - 1 {
        lemma_normalizer_run_bound(n, i + 1);
    }
}

/// An ordered sequence of `(base_local_id, count)` runs, sorted by generation
/// count ascending and pairwise disjoint.
#[derive(Debug)]
pub struct SessionSpaceNormalizer {
    /// The runs, each a base local ID and the length of the run.
    pub leading_locals: Vec<(LocalId, u64)>,
}

impl SessionSpaceNormalizer {
    /// The runs as a sequence, for specifications.
    pub open spec fn runs(self) -> Seq<(LocalId, u64)> {
        self.leading_locals@
    }

    /// One past the last generation count recorded; 0 when empty.
    pub open spec fn end_gen(self) -> int {
        if self.runs().len() == 0 {
            0
        } else {
            self.runs().last().0.gen() + self.runs().last().1
        }
    }

    /// Well formed when every run has a well-formed negative base and a
    /// positive length that fits the signed range, and runs are ordered and
    /// disjoint by generation count.
    pub open spec fn wf(self) -> bool {
        &&& forall|i: int|
            0 <= i < self.runs().len() ==> (#[trigger] self.runs()[i]).0.wf() && self.runs()[i].1
                >= 1 && self.runs()[i].0.gen() + self.runs()[i].1 <= i64::MAX + 1
        &&& forall|i: int|
            0 <= i < self.runs().len() - 1 ==> (#[trigger] self.runs()[i]).0.gen()
                + self.runs()[i].1 <= self.runs()[i + 1].0.gen()
    }

    /// True when generation count `g` falls in some run.
    pub open spec fn contains_gen(self, g: int) -> bool {
        exists|i: int|
            0 <= i < self.runs().len() && (#[trigger] self.runs()[i]).0.gen() <= g
                < self.runs()[i].0.gen() + self.runs()[i].1
    }

    /// Creates an empty normalizer.
    pub fn new() -> (r: SessionSpaceNormalizer)
        ensures
            r.runs().len() == 0,
            r.wf(),
    {
        SessionSpaceNormalizer { leading_locals: Vec::new() }
    }

    /// Records `count` locals starting at `base`: extends the last run when
    /// `base` immediately follows it, else appends a new run. New locals must
    /// come after every recorded one.
    pub fn add_local_range(&mut self, base: LocalId, count: u64)
        requires
            old(self).wf(),
            base.wf(),
            count >= 1,
            base.gen() + count <= i64::MAX + 1,
            base.gen() >= old(self).end_gen(),
        ensures
            final(self).wf(),
            old(self).runs().len() > 0 && base.gen() == old(self).end_gen() ==> final(self).runs()
                == old(self).runs().update(
                old(self).runs().len() - 1,
                (old(self).runs().last().0, (old(self).runs().last().1 + count) as u64),
            ),
            !(old(self).runs().len() > 0 && base.gen() == old(self).end_gen()) ==> final(self).runs()
                == old(self).runs().push((base, count)),
            forall|g: int|
                final(self).contains_gen(g) == (old(self).contains_gen(g) || base.gen() <= g
                    < base.gen() + count),
            final(self).end_gen() == base.gen() + count,
    {
        let n: usize = self.leading_locals.len();
        let ghost oldruns = self.runs();
        if n > 0 {
            let last = self.leading_locals[n - 1];
            let last_gen: u64 = last.0.to_generation_count();
            if last_gen + last.1 == base.to_generation_count() {
                self.leading_locals[n - 1] = (last.0, last.1 + count);
                proof {
                    assert(self.runs() == oldruns.update(
                        oldruns.len() - 1,
                        (oldruns.last().0, (oldruns.last().1 + count) as u64),
                    ));
                    assert forall|g: int|
                        self.contains_gen(g) == (old(self).contains_gen(g) || base.gen() <= g
                            < base.gen() + count) by {
                        let m = oldruns.len() - 1;
                        if old(self).contains_gen(g) {
                            let i = choose|i: int|
                                0 <= i < oldruns.len() && (#[trigger] oldruns[i]).0.gen() <= g < oldruns[i].0.gen()
                                    + oldruns[i].1;
                            assert(self.runs()[i].0.gen() <= g < self.runs()[i].0.gen()
                                + self.runs()[i].1);
                        }
                        if base.gen() <= g < base.gen() + count {
                            assert(self.runs()[m].0.gen() <= g < self.runs()[m].0.gen()
                                + self.runs()[m].1);
                        }
                        if self.contains_gen(g) {
                            let i = choose|i: int|
                                0 <= i < self.runs().len() && (#[trigger] self.runs()[i]).0.gen()
                                    <= g < self.runs()[i].0.gen() + self.runs()[i].1;
                            if i < m {
                                assert(oldruns[i].0.gen() <= g < oldruns[i].0.gen() + oldruns[i].1);
                            } else {
                                assert(oldruns[m].0.gen() <= g < oldruns[m].0.gen() + oldruns[m].1
                                    || base.gen() <= g < base.gen() + count);
                            }
                        }
                    }
                }
                return ;
            }
        }
        self.leading_locals.push((base, count));
        proof {
            assert(self.runs() == oldruns.push((base, count)));
            assert forall|g: int|
                self.contains_gen(g) == (old(self).contains_gen(g) || base.gen() <= g < base.gen()
                    + count) by {
                let m = oldruns.len() as int;
                if old(self).contains_gen(g) {
                    let i = choose|i: int|
                        0 <= i < oldruns.len() && (#[trigger] oldruns[i]).0.gen() <= g < oldruns[i].0.gen()
                            + oldruns[i].1;
                    assert(self.runs()[i].0.gen() <= g < self.runs()[i].0.gen() + self.runs()[i].1);
                }
                if base.gen() <= g < base.gen() + count {
                    assert(self.runs()[m].0.gen() <= g < self.runs()[m].0.gen() + self.runs()[m].1);
                }
                if self.contains_gen(g) {
                    let i = choose|i: int|
                        0 <= i < self.runs().len() && (#[trigger] self.runs()[i]).0.gen() <= g
                            < self.runs()[i].0.gen() + self.runs()[i].1;
                    if i < m {
                        assert(oldruns[i].0.gen() <= g < oldruns[i].0.gen() + oldruns[i].1);
                    }
                }
            }
        }
    }

    /// True when the queried local ID has been recorded.
    pub fn contains(&self, query: LocalId) -> (r: bool)
        requires
            self.wf(),
            query.wf(),
        ensures
            r == self.contains_gen(query.gen()),
    {
        let g: u64 = query.to_generation_count();
        let n: usize = self.leading_locals.len();
        let mut i: usize = 0;
        while i < n
            invariant
                self.wf(),
                g == query.gen(),
                n == self.runs().len(),
                0 <= i <= n,
                forall|k: int|
                    0 <= k < i ==> !((#[trigger] self.runs()[k]).0.gen() <= query.gen()
                        < self.runs()[k].0.gen() + self.runs()[k].1),
            decreases n - i,
        {
            let run = self.leading_locals[i];
            let base: u64 = run.0.to_generation_count();
            if base <= g && g - base < run.1 {
                return true;
            }
            i = i + 1;
        }
        false
    }

    /// The number of runs recorded.
    pub fn len(&self) -> (r: usize)
        ensures
            r == self.runs().len(),
    {
        self.leading_locals.len()
    }

    /// True when the two normalizers record the same runs.
    pub fn eq(&self, other: &SessionSpaceNormalizer) -> (r: bool)
        ensures
            r == (self.runs() == other.runs()),
    {
        let n: usize = self.leading_locals.len();
        if n != other.leading_locals.len() {
            proof {
                assert(self.runs() != other.runs());
            }
            return false;
        }
        let mut i: usize = 0;
        while i < n
            invariant
                n == self.runs().len(),
                n == other.runs().len(),
                0 <= i <= n,
                forall|k: int| 0 <= k < i ==> self.runs()[k] == other.runs()[k],
            decreases n - i,
        {
            let a = self.leading_locals[i];
            let b = other.leading_locals[i];
            if a.0.id != b.0.id || a.1 != b.1 {
                assert(self.runs()[i as int] != other.runs()[i as int]);
                return false;
            }
            i = i + 1;
        }
        proof {
            assert(self.runs() =~= other.runs());
        }
        true
    }
}

} // verus!
