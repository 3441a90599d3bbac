//! The final-space index: the globally ordered, append-only list of cluster
//! references sorted by base final ID, gapless in capacity terms.

use vstd::prelude::*;

use crate::session_space::{ClusterRecord, ClusterRef, IdCluster, Sessions};

verus! {

/// The ordered list of all clusters, keyed by base final ID.
#[derive(Debug)]
pub struct FinalSpace {
    /// The cluster references, in finalization order.
    pub clusters: Vec<ClusterRef>,
}

impl FinalSpace {
    /// The references as a sequence, for specifications.
    pub open spec fn refs(self) -> Seq<ClusterRef> {
        self.clusters@
    }

    /// One past the last reserved final ID; 0 when empty.
    pub open spec fn end_final(self, sessions: Sessions) -> int {
        if self.refs().len() == 0 {
            0
        } else {
            sessions.cluster_at(self.refs().last()).base_final_id.id + sessions.cluster_at(
                self.refs().last(),
            ).capacity
        }
    }

    /// Well formed against a session table when every reference is valid and
    /// the clusters are gapless and start at 0 in final-ID space.
    pub open spec fn wf(self, sessions: Sessions) -> bool {
        &&& forall|i: int| 0 <= i < self.refs().len() ==> sessions.valid_cref(#[trigger] self.refs()[i])
        &&& forall|i: int|
            0 <= i < self.refs().len() - 1 ==> sessions.cluster_at(
                #[trigger] self.refs()[i],
            ).base_final_id.id + sessions.cluster_at(self.refs()[i]).capacity == sessions.cluster_at(
                self.refs()[i + 1],
            ).base_final_id.id
        &&& self.refs().len() > 0 ==> sessions.cluster_at(self.refs()[0]).base_final_id.id == 0
    }

    /// Creates an empty final space.
    pub fn new() -> (r: FinalSpace)
        ensures
            r.refs().len() == 0,
    {
        FinalSpace { clusters: Vec::new() }
    }

    /// The number of clusters indexed.
    pub fn len(&self) -> (r: usize)
        ensures
            r == self.refs().len(),
    {
        self.clusters.len()
    }

    /// Appends a cluster reference at the tail of the final space.
    pub fn add_cluster(&mut self, new_cluster_ref: ClusterRef)
        ensures
            final(self).refs() == old(self).refs().push(new_cluster_ref),
    {
        self.clusters.push(new_cluster_ref);
    }

    /// The reference of the last (highest-based) cluster, if any.
    pub fn get_tail_cluster_ref(&self) -> (r: Option<ClusterRef>)
        ensures
            match r {
                Some(cref) => self.refs().len() > 0 && cref == self.refs().last(),
                None => self.refs().len() == 0,
            },
    {
        if self.clusters.len() == 0 {
            None
        } else {
            Some(self.clusters[self.clusters.len() - 1])
        }
    }

    /// The cluster reference whose allocated final-ID extent covers
    /// `final_id`, found by binary search over the sorted bases.
    pub fn search(&self, final_id: u64, sessions: &Sessions) -> (r: Option<ClusterRef>)
        requires
            sessions.wf(),
            self.wf(*sessions),
        ensures
            match r {
                Some(cref) => exists|i: int|
                    0 <= i < self.refs().len() && #[trigger] self.refs()[i] == cref
                        && sessions.cluster_at(cref).covers_final(final_id as int),
                None => forall|i: int|
                    0 <= i < self.refs().len() ==> !sessions.cluster_at(
                        #[trigger] self.refs()[i],
                    ).covers_final(final_id as int),
            },
    {
        let n: usize = self.clusters.len();
        let mut lo: usize = 0;
        let mut hi: usize = n;
        while lo < hi
            invariant
                sessions.wf(),
                self.wf(*sessions),
                n == self.refs().len(),
                0 <= lo <= hi <= n,
                forall|k: int|
                    0 <= k < lo ==> sessions.cluster_at(#[trigger] self.refs()[k]).base_final_id.id
                        <= final_id,
                forall|k: int|
                    hi <= k < n ==> sessions.cluster_at(#[trigger] self.refs()[k]).base_final_id.id
                        > final_id,
            decreases hi - lo,
        {
            let mid: usize = lo + (hi - lo) / 2;
            let cref = self.clusters[mid];
            let c: IdCluster = sessions.deref_cluster(cref);
            if c.base_final_id.id <= final_id {
                proof {
                    assert forall|k: int|
                        0 <= k < mid + 1 implies sessions.cluster_at(
                        #[trigger] self.refs()[k],
                    ).base_final_id.id <= final_id by {
                        if k < mid {
                            lemma_fs_monotonic(*self, *sessions, k, mid as int);
                        }
                    }
                }
                lo = mid + 1;
            } else {
                proof {
                    assert forall|k: int|
                        mid <= k < n implies sessions.cluster_at(
                        #[trigger] self.refs()[k],
                    ).base_final_id.id > final_id by {
                        if k > mid {
                            lemma_fs_monotonic(*self, *sessions, mid as int, k);
                            assert(sessions.cluster_at(self.refs()[mid as int]).capacity >= 1);
                        }
                    }
                }
                hi = mid;
            }
        }
        if lo == 0 {
            return None;
        }
        let cref = self.clusters[lo - 1];
        let c: IdCluster = sessions.deref_cluster(cref);
        if final_id - c.base_final_id.id < c.capacity {
            Some(cref)
        } else {
            proof {
                assert forall|i: int|
                    0 <= i < self.refs().len() implies !sessions.cluster_at(
                    #[trigger] self.refs()[i],
                ).covers_final(final_id as int) by {
                    if i < lo - 1 {
                        lemma_fs_monotonic(*self, *sessions, i, lo - 1);
                    }
                }
            }
            None
        }
    }

    /// The records of all indexed clusters, in final-space order: what
    /// finalized-equality of two compressors compares.
    pub open spec fn records(self, sessions: Sessions) -> Seq<ClusterRecord> {
        Seq::new(self.refs().len(), |i: int| sessions.record_of(self.refs()[i]))
    }

    /// True when the two final spaces index the same clusters, by contents,
    /// in the same order.
    pub fn equals_test_only(
        &self,
        other: &FinalSpace,
        sessions_self: &Sessions,
        sessions_other: &Sessions,
    ) -> (r: bool)
        requires
            forall|i: int|
                0 <= i < self.refs().len() ==> sessions_self.valid_cref(#[trigger] self.refs()[i]),
            forall|i: int|
                0 <= i < other.refs().len() ==> sessions_other.valid_cref(
                    #[trigger] other.refs()[i],
                ),
        ensures
            r == (self.records(*sessions_self) == other.records(*sessions_other)),
    {
        let n: usize = self.clusters.len();
        if n != other.clusters.len() {
            proof {
                assert(self.records(*sessions_self).len() != other.records(*sessions_other).len());
            }
            return false;
        }
        let mut i: usize = 0;
        while i < n
            invariant
                forall|k: int|
                    0 <= k < self.refs().len() ==> sessions_self.valid_cref(
                        #[trigger] self.refs()[k],
                    ),
                forall|k: int|
                    0 <= k < other.refs().len() ==> sessions_other.valid_cref(
                        #[trigger] other.refs()[k],
                    ),
                n == self.refs().len(),
                n == other.refs().len(),
                0 <= i <= n,
                forall|k: int|
                    0 <= k < i ==> self.records(*sessions_self)[k] == other.records(
                        *sessions_other,
                    )[k],
            decreases n - i,
        {
            let a_ref = self.clusters[i];
            let b_ref = other.clusters[i];
            let a = sessions_self.deref_cluster(a_ref);
            let b = sessions_other.deref_cluster(b_ref);
            let a_sid = sessions_self.get_session_id(a_ref.session_space_ref);
            let b_sid = sessions_other.get_session_id(b_ref.session_space_ref);
            if a_sid.id != b_sid.id || a.base_local_id.id != b.base_local_id.id
                || a.base_final_id.id != b.base_final_id.id || a.capacity != b.capacity || a.count
                != b.count {
                proof {
                    assert(self.records(*sessions_self)[i as int] != other.records(
                        *sessions_other,
                    )[i as int]);
                }
                return false;
            }
            i = i + 1;
        }
        proof {
            assert(self.records(*sessions_self) =~= other.records(*sessions_other));
        }
        true
    }
}

/// Bases in the final space grow monotonically: the whole extent of an
/// earlier cluster lies at or below a later cluster's base.
pub proof fn lemma_fs_monotonic(fs: FinalSpace, sessions: Sessions, i: int, j: int)
    requires
        sessions.wf(),
        fs.wf(sessions),
        0 <= i < j < fs.refs().len(),
    ensures
        sessions.cluster_at(fs.refs()[i]).base_final_id.id + sessions.cluster_at(
            fs.refs()[i],
        ).capacity <= sessions.cluster_at(fs.refs()[j]).base_final_id.id,
    decreases j - i,
{
    if i + 1 == j {
    } else {
        lemma_fs_monotonic(fs, sessions, i, j - 1);
        assert(sessions.cluster_at(fs.refs()[j - 1]).base_final_id.id + sessions.cluster_at(
            fs.refs()[j - 1],
        ).capacity == sessions.cluster_at(fs.refs()[j]).base_final_id.id);
        assert(cluster_wf_at(sessions, fs.refs()[j - 1]));
    }
}

/// Every cluster named by a valid reference in a well-formed table is well
/// formed.
pub open spec fn cluster_wf_at(sessions: Sessions, cref: ClusterRef) -> bool {
    sessions.valid_cref(cref) && sessions.cluster_at(cref).wf()
}

/// Every final-space cluster's extent lies within `[0, end_final)`.
pub proof fn lemma_fs_cluster_bounds(fs: FinalSpace, sessions: Sessions, i: int)
    requires
        sessions.wf(),
        fs.wf(sessions),
        0 <= i < fs.refs().len(),
    ensures
        0 <= sessions.cluster_at(fs.refs()[i]).base_final_id.id,
        sessions.cluster_at(fs.refs()[i]).base_final_id.id + sessions.cluster_at(
            fs.refs()[i],
        ).capacity <= fs.end_final(sessions),
    decreases fs.refs().len() - i,
{
    if i < fs.refs().len() - 1 {
        lemma_fs_monotonic(fs, sessions, i, fs.refs().len() - 1);
    }
}

} // verus!
