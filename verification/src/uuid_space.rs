//! The stable-space index: a sorted associative structure keyed by each
//! cluster's base stable ID, supporting "which cluster (if any) contains this
//! 128-bit ID" and the range-overlap query used for collision detection.

use vstd::prelude::*;

use crate::id_types::{LocalId, SessionId, StableId};
use crate::session_space::{ClusterRecord, ClusterRef, IdCluster, Sessions};

verus! {

/// A sorted map from cluster base stable IDs to cluster references.
#[derive(Debug)]
pub struct UuidSpace {
    /// The entries, sorted strictly ascending by stable key.
    pub uuid_to_cluster: Vec<(StableId, ClusterRef)>,
}

impl UuidSpace {
    /// The entries as a sequence, for specifications.
    pub open spec fn entries(self) -> Seq<(StableId, ClusterRef)> {
        self.uuid_to_cluster@
    }

    /// The stable key of entry `i`.
    pub open spec fn key(self, i: int) -> int {
        self.entries()[i].0.id as int
    }

    /// The cluster reference of entry `i`.
    pub open spec fn cref(self, i: int) -> ClusterRef {
        self.entries()[i].1
    }

    /// Well formed against a session table when every entry names an existing
    /// cluster under that cluster's base stable ID and the keys are strictly
    /// ascending.
    pub open spec fn wf(self, sessions: Sessions) -> bool {
        &&& forall|i: int|
            0 <= i < self.entries().len() ==> sessions.valid_cref(#[trigger] self.cref(i))
                && self.key(i) == sessions.cluster_base_stable(self.cref(i))
        &&& forall|i: int|
            0 <= i < self.entries().len() - 1 ==> #[trigger] self.key(i) < self.key(i + 1)
    }

    /// True when entry `p` holds the greatest key at or below `q`.
    pub open spec fn is_pred_idx(self, q: int, p: int) -> bool {
        &&& 0 <= p < self.entries().len()
        &&& self.key(p) <= q
        &&& p == self.entries().len() - 1 || self.key(p + 1) > q
    }

    /// Creates an empty index.
    pub fn new() -> (r: UuidSpace)
        ensures
            r.entries().len() == 0,
    {
        UuidSpace { uuid_to_cluster: Vec::new() }
    }

    /// The number of clusters indexed.
    pub fn len(&self) -> (r: usize)
        ensures
            r == self.entries().len(),
    {
        self.uuid_to_cluster.len()
    }

    /// The index of the entry with the greatest key at or below `q`, if any,
    /// by binary search.
    fn pred_index(&self, q: u128, sessions: &Sessions) -> (r: Option<usize>)
        requires
            sessions.wf(),
            self.wf(*sessions),
        ensures
            match r {
                Some(p) => self.is_pred_idx(q as int, p as int),
                None => forall|i: int| 0 <= i < self.entries().len() ==> #[trigger] self.key(i) > q,
            },
    {
        let n: usize = self.uuid_to_cluster.len();
        let mut lo: usize = 0;
        let mut hi: usize = n;
        while lo < hi
            invariant
                sessions.wf(),
                self.wf(*sessions),
                n == self.entries().len(),
                0 <= lo <= hi <= n,
                forall|k: int| 0 <= k < lo ==> #[trigger] self.key(k) <= q,
                forall|k: int| hi <= k < n ==> #[trigger] self.key(k) > q,
            decreases hi - lo,
        {
            let mid: usize = lo + (hi - lo) / 2;
            if self.uuid_to_cluster[mid].0.id <= q {
                proof {
                    assert forall|k: int| 0 <= k < mid + 1 implies #[trigger] self.key(k) <= q by {
                        if k < mid {
                            lemma_uuid_sorted(*self, *sessions, k, mid as int);
                        }
                    }
                }
                lo = mid + 1;
            } else {
                proof {
                    assert forall|k: int| mid <= k < n implies #[trigger] self.key(k) > q by {
                        if k > mid {
                            lemma_uuid_sorted(*self, *sessions, mid as int, k);
                        }
                    }
                }
                hi = mid;
            }
        }
        if lo == 0 {
            None
        } else {
            Some(lo - 1)
        }
    }

    /// Registers a cluster under its base stable ID.
    pub fn add_cluster(
        &mut self,
        session_id: SessionId,
        new_cluster_ref: ClusterRef,
        sessions: &Sessions,
    )
        requires
            sessions.wf(),
            old(self).wf(*sessions),
            sessions.valid_cref(new_cluster_ref),
            session_id == sessions.table()[new_cluster_ref.session_space_ref.index as int].session_id,
            forall|i: int|
                0 <= i < old(self).entries().len() ==> #[trigger] old(self).key(i)
                    != sessions.cluster_base_stable(new_cluster_ref),
        ensures
            final(self).wf(*sessions),
            final(self).entries().len() == old(self).entries().len() + 1,
            exists|i: int|
                0 <= i < final(self).entries().len() && #[trigger] final(self).entries()[i] == (
                StableId { id: sessions.cluster_base_stable(new_cluster_ref) as u128 },
                new_cluster_ref,
            ),
            forall|i: int|
                0 <= i < final(self).entries().len() ==> (#[trigger] final(self).entries()[i]) == (
                StableId { id: sessions.cluster_base_stable(new_cluster_ref) as u128 },
                new_cluster_ref,
            ) || exists|j: int|
                    0 <= j < old(self).entries().len() && #[trigger] old(self).entries()[j]
                        == final(self).entries()[i],
            forall|j: int|
                0 <= j < old(self).entries().len() ==> exists|i: int|
                    0 <= i < final(self).entries().len() && #[trigger] final(self).entries()[i]
                        == (#[trigger] old(self).entries()[j]),
            uuid_inserted(
                *old(self),
                *final(self),
                sessions.cluster_base_stable(new_cluster_ref),
                new_cluster_ref,
            ),
    {
        proof {
            let si = new_cluster_ref.session_space_ref.index as int;
            let s = sessions.table()[si];
            crate::session_space::lemma_chain_cluster_bounds(
                s,
                new_cluster_ref.cluster_index as int,
            );
        }
        let c: IdCluster = sessions.deref_cluster(new_cluster_ref);
        let base_stable: StableId = StableId::from_session_id(session_id).add_local(
            c.base_local_id,
        );
        let ghost oldentries = self.entries();
        let ghost newentry = (base_stable, new_cluster_ref);
        proof {
            assert forall|k: int|
                0 <= k < oldentries.len() - 1 implies (#[trigger] oldentries[k]).0.id < oldentries[k
                + 1].0.id by {
                assert(self.key(k) < self.key(k + 1));
            }
            assert forall|k: int|
                0 <= k < oldentries.len() implies sessions.valid_cref(
                (#[trigger] oldentries[k]).1,
            ) && oldentries[k].0.id == sessions.cluster_base_stable(oldentries[k].1) by {
                assert(sessions.valid_cref(self.cref(k)) && self.key(k)
                    == sessions.cluster_base_stable(self.cref(k)));
            }
            assert forall|k: int|
                0 <= k < oldentries.len() implies (#[trigger] oldentries[k]).0.id
                    != base_stable.id by {
                assert(self.key(k) != sessions.cluster_base_stable(new_cluster_ref));
            }
        }
        let n: usize = self.uuid_to_cluster.len();
        let mut lo: usize = 0;
        let mut hi: usize = n;
        while lo < hi
            invariant
                sessions.wf(),
                self.wf(*sessions),
                self.entries() == oldentries,
                n == oldentries.len(),
                0 <= lo <= hi <= n,
                forall|k: int|
                    0 <= k < oldentries.len() - 1 ==> (#[trigger] oldentries[k]).0.id < oldentries[k
                        + 1].0.id,
                forall|k: int|
                    0 <= k < oldentries.len() ==> (#[trigger] oldentries[k]).0.id != base_stable.id,
                forall|k: int| 0 <= k < lo ==> (#[trigger] oldentries[k]).0.id < base_stable.id,
                forall|k: int| hi <= k < n ==> (#[trigger] oldentries[k]).0.id > base_stable.id,
            decreases hi - lo,
        {
            let mid: usize = lo + (hi - lo) / 2;
            if self.uuid_to_cluster[mid].0.id < base_stable.id {
                proof {
                    assert forall|k: int|
                        0 <= k < mid + 1 implies (#[trigger] oldentries[k]).0.id
                            < base_stable.id by {
                        if k < mid {
                            lemma_uuid_sorted(*self, *sessions, k, mid as int);
                            assert(self.key(k) < self.key(mid as int));
                        }
                    }
                }
                lo = mid + 1;
            } else {
                proof {
                    assert forall|k: int|
                        mid <= k < n implies (#[trigger] oldentries[k]).0.id > base_stable.id by {
                        if k > mid {
                            lemma_uuid_sorted(*self, *sessions, mid as int, k);
                            assert(self.key(mid as int) < self.key(k));
                        }
                    }
                }
                hi = mid;
            }
        }
        self.uuid_to_cluster.insert(lo, (base_stable, new_cluster_ref));
        proof {
            let p = lo as int;
            oldentries.insert_ensures(p, newentry);
            assert(self.entries() == oldentries.insert(p, newentry));
            assert(forall|i: int|
                0 <= i < p ==> #[trigger] self.entries()[i] == oldentries[i]) by {
                assert(forall|i: int|
                    0 <= i < p ==> #[trigger] oldentries.insert(p, newentry)[i] == oldentries[i]);
            }
            assert(forall|i: int|
                p <= i < oldentries.len() ==> #[trigger] self.entries()[i + 1] == oldentries[i])
                by {
                assert(forall|i: int|
                    p <= i < oldentries.len() ==> #[trigger] oldentries.insert(p, newentry)[i + 1]
                        == oldentries[i]);
            }
            assert(oldentries.insert(p, newentry)[p] == newentry);
            assert(self.entries()[p] == newentry);
            assert forall|i: int|
                0 <= i < self.entries().len() - 1 implies #[trigger] self.key(i) < self.key(
                i + 1,
            ) by {
                if i + 1 < p {
                    assert(self.entries()[i] == oldentries[i]);
                    assert(self.entries()[i + 1] == oldentries[i + 1]);
                } else if i + 1 == p {
                    assert(self.entries()[i] == oldentries[i]);
                    assert(self.entries()[i + 1] == newentry);
                } else if i == p {
                    assert(self.entries()[i + 1] == oldentries[i]);
                } else {
                    assert(self.entries()[i] == oldentries[i - 1]);
                    assert(self.entries()[i + 1] == oldentries[i]);
                }
            }
            assert forall|i: int|
                0 <= i < self.entries().len() implies sessions.valid_cref(#[trigger] self.cref(i))
                && self.key(i) == sessions.cluster_base_stable(self.cref(i)) by {
                if i < p {
                    assert(self.entries()[i] == oldentries[i]);
                } else if i > p {
                    assert(self.entries()[i] == oldentries[i - 1]);
                } else {
                    assert(self.entries()[i] == newentry);
                }
            }
            assert forall|i: int|
                0 <= i < self.entries().len() implies (#[trigger] self.entries()[i]) == newentry
                || exists|j: int|
                0 <= j < oldentries.len() && #[trigger] oldentries[j] == self.entries()[i] by {
                if i < p {
                    assert(oldentries[i] == self.entries()[i]);
                } else if i > p {
                    assert(oldentries[i - 1] == self.entries()[i]);
                }
            }
            assert forall|j: int|
                0 <= j < oldentries.len() implies exists|i: int|
                0 <= i < self.entries().len() && #[trigger] self.entries()[i] == (
            #[trigger] oldentries[j]) by {
                if j < p {
                    assert(self.entries()[j] == oldentries[j]);
                } else {
                    assert(self.entries()[j + 1] == oldentries[j]);
                }
            }
            assert(self.entries()[p] == newentry);
            let key = sessions.cluster_base_stable(new_cluster_ref);
            assert((StableId { id: key as u128 }) == base_stable);
            assert forall|k: int| 0 <= k < p implies #[trigger] old(self).key(k) < key by {
                assert(oldentries[k].0.id < base_stable.id);
            }
            assert forall|k: int|
                p <= k < old(self).entries().len() implies #[trigger] old(self).key(k) > key by {
                assert(oldentries[k].0.id > base_stable.id);
            }
            assert(uuid_inserted(*old(self), *self, key, new_cluster_ref));
        }
    }

    /// The cluster in which the queried stable ID has been allocated, if any,
    /// together with the originator's implied local ID. Containment uses the
    /// cluster's inclusive stable extent `[base, base + capacity]`.
    pub fn search(&self, query: StableId, sessions: &Sessions) -> (r: Option<(IdCluster, LocalId)>)
        requires
            sessions.wf(),
            self.wf(*sessions),
        ensures
            (forall|i: int| 0 <= i < self.entries().len() ==> #[trigger] self.key(i) > query.id)
                ==> r is None,
            forall|p: int|
                self.is_pred_idx(query.id as int, p) ==> match r {
                    Some((c, l)) => {
                        &&& query.id <= sessions.cluster_max_stable(#[trigger] self.cref(p))
                        &&& c == sessions.cluster_at(self.cref(p))
                        &&& l.wf()
                        &&& l.gen() == query.id - sessions.cluster_sid(self.cref(p)) + 1
                    },
                    None => query.id > sessions.cluster_max_stable(#[trigger] self.cref(p)),
                },
    {
        match self.pred_index(query.id, sessions) {
            None => None,
            Some(p) => {
                let cref = self.uuid_to_cluster[p].1;
                proof {
                    assert forall|p2: int|
                        self.is_pred_idx(query.id as int, p2) implies p2 == p as int by {
                        lemma_pred_unique(*self, *sessions, query.id as int, p as int, p2);
                    }
                    assert(cref == self.cref(p as int));
                    assert(sessions.valid_cref(self.cref(p as int)) && self.key(p as int)
                        == sessions.cluster_base_stable(self.cref(p as int)));
                }
                let c: IdCluster = sessions.deref_cluster(cref);
                proof {
                    assert(c == sessions.cluster_at(cref));
                    let s = sessions.table()[cref.session_space_ref.index as int];
                    assert(s.wf() && s.index == cref.session_space_ref.index);
                    assert(s.chain()[cref.cluster_index as int].session_creator.index == s.index);
                    crate::session_space::lemma_chain_cluster_bounds(
                        s,
                        cref.cluster_index as int,
                    );
                }
                let result_session_id: SessionId = sessions.get_session_id(c.session_creator);
                let cluster_min_stable: StableId = StableId::from_session_id(
                    result_session_id,
                ).add_local(c.base_local_id);
                let cluster_max_stable: StableId = cluster_min_stable.add_offset(
                    c.capacity as u128,
                );
                if query.id <= cluster_max_stable.id {
                    let offset: u128 = query.offset_from(
                        StableId::from_session_id(result_session_id),
                    );
                    let originator_local = LocalId::from_generation_count((offset as u64) + 1);
                    Some((c, originator_local))
                } else {
                    None
                }
            },
        }
    }

    /// True when the closed stable range `[range_base, range_max]` meets the
    /// inclusive stable extent of a cluster owned by a session other than
    /// `originator`: the predecessor of `range_max` is the only candidate.
    pub fn range_collides(
        &self,
        originator: SessionId,
        sessions: &Sessions,
        range_base: StableId,
        range_max: StableId,
    ) -> (r: bool)
        requires
            sessions.wf(),
            self.wf(*sessions),
        ensures
            (forall|i: int| 0 <= i < self.entries().len() ==> #[trigger] self.key(i) > range_max.id)
                ==> r == false,
            forall|p: int|
                self.is_pred_idx(range_max.id as int, p) ==> r == (sessions.cluster_sid(
                    #[trigger] self.cref(p),
                ) != originator.id && range_base.id <= sessions.cluster_max_stable(self.cref(p))),
    {
        match self.pred_index(range_max.id, sessions) {
            None => false,
            Some(p) => {
                let cref = self.uuid_to_cluster[p].1;
                proof {
                    assert forall|p2: int|
                        self.is_pred_idx(range_max.id as int, p2) implies p2 == p as int by {
                        lemma_pred_unique(*self, *sessions, range_max.id as int, p as int, p2);
                    }
                    assert(cref == self.cref(p as int));
                    assert(sessions.valid_cref(self.cref(p as int)) && self.key(p as int)
                        == sessions.cluster_base_stable(self.cref(p as int)));
                }
                let c: IdCluster = sessions.deref_cluster(cref);
                proof {
                    assert(c == sessions.cluster_at(cref));
                    let s = sessions.table()[cref.session_space_ref.index as int];
                    assert(s.wf() && s.index == cref.session_space_ref.index);
                    assert(s.chain()[cref.cluster_index as int].session_creator.index == s.index);
                    crate::session_space::lemma_chain_cluster_bounds(
                        s,
                        cref.cluster_index as int,
                    );
                }
                let result_session_id: SessionId = sessions.get_session_id(c.session_creator);
                let cluster_max_stable: StableId = StableId::from_session_id(
                    result_session_id,
                ).add_local(c.base_local_id).add_offset(c.capacity as u128);
                originator.id != result_session_id.id && range_base.id <= cluster_max_stable.id
            },
        }
    }

    /// The keyed records of all indexed clusters, in key order.
    pub open spec fn keyed_records(self, sessions: Sessions) -> Seq<(u128, ClusterRecord)> {
        Seq::new(self.entries().len(), |i: int| (self.entries()[i].0.id, sessions.record_of(self.cref(i))))
    }

    /// True when the two indices hold the same keys mapped to clusters with
    /// the same contents.
    pub fn equals_test_only(
        &self,
        other: &UuidSpace,
        sessions_self: &Sessions,
        sessions_other: &Sessions,
    ) -> (r: bool)
        requires
            forall|i: int|
                0 <= i < self.entries().len() ==> sessions_self.valid_cref(#[trigger] self.cref(i)),
            forall|i: int|
                0 <= i < other.entries().len() ==> sessions_other.valid_cref(
                    #[trigger] other.cref(i),
                ),
        ensures
            r == (self.keyed_records(*sessions_self) == other.keyed_records(*sessions_other)),
    {
        let n: usize = self.uuid_to_cluster.len();
        if n != other.uuid_to_cluster.len() {
            proof {
                assert(self.keyed_records(*sessions_self).len() != other.keyed_records(
                    *sessions_other,
                ).len());
            }
            return false;
        }
        let mut i: usize = 0;
        while i < n
            invariant
                forall|k: int|
                    0 <= k < self.entries().len() ==> sessions_self.valid_cref(
                        #[trigger] self.cref(k),
                    ),
                forall|k: int|
                    0 <= k < other.entries().len() ==> sessions_other.valid_cref(
                        #[trigger] other.cref(k),
                    ),
                n == self.entries().len(),
                n == other.entries().len(),
                0 <= i <= n,
                forall|k: int|
                    0 <= k < i ==> self.keyed_records(*sessions_self)[k] == other.keyed_records(
                        *sessions_other,
                    )[k],
            decreases n - i,
        {
            let (a_key, a_ref) = self.uuid_to_cluster[i];
            let (b_key, b_ref) = other.uuid_to_cluster[i];
            proof {
                assert(a_ref == self.cref(i as int) && sessions_self.valid_cref(
                    self.cref(i as int),
                ));
                assert(b_ref == other.cref(i as int) && sessions_other.valid_cref(
                    other.cref(i as int),
                ));
            }
            let a = sessions_self.deref_cluster(a_ref);
            let b = sessions_other.deref_cluster(b_ref);
            let a_sid = sessions_self.get_session_id(a_ref.session_space_ref);
            let b_sid = sessions_other.get_session_id(b_ref.session_space_ref);
            if a_key.id != b_key.id || a_sid.id != b_sid.id || a.base_local_id.id != b.base_local_id.id
                || a.base_final_id.id != b.base_final_id.id || a.capacity != b.capacity || a.count
                != b.count {
                proof {
                    assert(self.keyed_records(*sessions_self)[i as int] != other.keyed_records(
                        *sessions_other,
                    )[i as int]);
                }
                return false;
            }
            i = i + 1;
        }
        proof {
            assert(self.keyed_records(*sessions_self) =~= other.keyed_records(*sessions_other));
        }
        true
    }
}

/// The new index holds the new entry at its unique sorted position, with
/// every other entry kept in order.
pub open spec fn uuid_inserted(pre: UuidSpace, post: UuidSpace, key: int, cref: ClusterRef) -> bool {
    exists|p: int|
        {
            &&& 0 <= p <= pre.entries().len()
            &&& post.entries() == #[trigger] pre.entries().insert(
                p,
                (StableId { id: key as u128 }, cref),
            )
            &&& forall|k: int| 0 <= k < p ==> #[trigger] pre.key(k) < key
            &&& forall|k: int| p <= k < pre.entries().len() ==> #[trigger] pre.key(k) > key
        }
}

/// Some entry's key lies at or below `q`, so a predecessor index exists.
pub proof fn lemma_pred_exists(u: UuidSpace, sessions: Sessions, q: int, i: int)
    requires
        sessions.wf(),
        u.wf(sessions),
        0 <= i < u.entries().len(),
        u.key(i) <= q,
    ensures
        exists|p: int| #[trigger] u.is_pred_idx(q, p),
    decreases u.entries().len() - i,
{
    if i == u.entries().len() - 1 || u.key(i + 1) > q {
        assert(u.is_pred_idx(q, i));
    } else {
        lemma_pred_exists(u, sessions, q, i + 1);
    }
}

/// The predecessor index of a query is unique.
pub proof fn lemma_pred_unique(u: UuidSpace, sessions: Sessions, q: int, p1: int, p2: int)
    requires
        sessions.wf(),
        u.wf(sessions),
        u.is_pred_idx(q, p1),
        u.is_pred_idx(q, p2),
    ensures
        p1 == p2,
{
    if p1 < p2 {
        if p1 + 1 < p2 {
            lemma_uuid_sorted(u, sessions, p1 + 1, p2);
        }
        assert(u.key(p1 + 1) <= u.key(p2));
    } else if p2 < p1 {
        if p2 + 1 < p1 {
            lemma_uuid_sorted(u, sessions, p2 + 1, p1);
        }
        assert(u.key(p2 + 1) <= u.key(p1));
    }
}

/// Keys in the index grow strictly from earlier to later entries.
pub proof fn lemma_uuid_sorted(u: UuidSpace, sessions: Sessions, i: int, j: int)
    requires
        sessions.wf(),
        u.wf(sessions),
        0 <= i < j < u.entries().len(),
    ensures
        u.key(i) < u.key(j),
    decreases j - i,
{
    if i + 1 == j {
    } else {
        lemma_uuid_sorted(u, sessions, i, j - 1);
    }
}

} // verus!
