//! The session table: the set of known sessions, each carrying its 128-bit
//! identifier and its ordered chain of clusters. A session's index in the
//! table ("token") is stable for the compressor's lifetime.

use vstd::prelude::*;

use crate::id_types::{FinalId, LocalId, SessionId};

verus! {

/// A stable index into the session table.
#[derive(Clone, Copy, Debug, PartialEq, Eq, Structural)]
pub struct SessionSpaceRef {
    pub index: usize,
}

impl SessionSpaceRef {
    /// The session-table index this reference holds.
    pub fn get_index(self) -> (r: usize)
        ensures
            r == self.index,
    {
        self.index
    }
}

/// A stable reference to one cluster: its session's index plus the cluster's
/// position in that session's chain.
#[derive(Clone, Copy, Debug, PartialEq, Eq, Structural)]
pub struct ClusterRef {
    pub session_space_ref: SessionSpaceRef,
    pub cluster_index: usize,
}

impl ClusterRef {
    /// The owning session's reference.
    pub fn get_session_space_ref(self) -> (r: SessionSpaceRef)
        ensures
            r == self.session_space_ref,
    {
        self.session_space_ref
    }
}

/// A contiguous reservation of both local-ID and final-ID space attached to
/// one session. `count` of its `capacity` slots are finalized.
#[derive(Clone, Copy, Debug, PartialEq, Eq, Structural)]
pub struct IdCluster {
    /// The owning session's reference.
    pub session_creator: SessionSpaceRef,
    /// The local ID at cluster offset 0 (the least negative in this cluster).
    pub base_local_id: LocalId,
    /// The final ID at cluster offset 0.
    pub base_final_id: FinalId,
    /// The reserved slot count; it may grow, never shrink.
    pub capacity: u64,
    /// The finalized slot count, at most `capacity`.
    pub count: u64,
}

impl IdCluster {
    /// The 1-based generation count at cluster offset 0.
    pub open spec fn base_gen(self) -> int {
        self.base_local_id.gen()
    }

    /// One past the last allocated generation count.
    pub open spec fn end_gen_allocated(self) -> int {
        self.base_gen() + self.capacity
    }

    /// One past the last finalized generation count.
    pub open spec fn end_gen_finalized(self) -> int {
        self.base_gen() + self.count
    }

    /// A cluster is well formed when its base local is well formed, it has at
    /// least one slot, the finalized count does not exceed the capacity, and
    /// both its local-ID and final-ID extents fit the signed encodings.
    pub open spec fn wf(self) -> bool {
        &&& self.base_local_id.wf()
        &&& 1 <= self.capacity
        &&& self.count <= self.capacity
        &&& self.base_gen() + self.capacity <= i64::MAX
        &&& self.base_final_id.id + self.capacity <= i64::MAX
    }

    /// True when generation count `g` falls in this cluster: in its allocated
    /// extent when `allocated`, else only in its finalized extent.
    pub open spec fn covers_gen(self, g: int, allocated: bool) -> bool {
        self.base_gen() <= g < self.base_gen() + (if allocated {
            self.capacity as int
        } else {
            self.count as int
        })
    }

    /// True when final ID `f` falls in this cluster's allocated extent.
    pub open spec fn covers_final(self, f: int) -> bool {
        self.base_final_id.id <= f < self.base_final_id.id + self.capacity
    }

    /// The final ID aligned with generation count `g` of this cluster.
    pub open spec fn final_of_gen(self, g: int) -> int {
        self.base_final_id.id + (g - self.base_gen())
    }

    /// The generation count aligned with final ID `f` of this cluster.
    pub open spec fn gen_of_final(self, f: int) -> int {
        self.base_gen() + (f - self.base_final_id.id)
    }
}

/// One session: its 128-bit identifier, its stable table index, and the
/// ordered chain of clusters it owns.
#[derive(Debug)]
pub struct SessionSpace {
    /// The session's 128-bit identifier.
    pub session_id: SessionId,
    /// The session's stable index in the table.
    pub index: usize,
    /// The session's clusters, ordered; gapless in local-ID space.
    pub cluster_chain: Vec<IdCluster>,
}

impl SessionSpace {
    /// The chain as a sequence, for specifications.
    pub open spec fn chain(self) -> Seq<IdCluster> {
        self.cluster_chain@
    }

    /// One past the last allocated generation count of the chain.
    pub open spec fn end_gen(self) -> int {
        if self.chain().len() == 0 {
            1
        } else {
            self.chain().last().end_gen_allocated()
        }
    }

    /// The generation count the next finalized range must start at.
    pub open spec fn next_finalize_gen(self) -> int {
        if self.chain().len() == 0 {
            1
        } else {
            self.chain().last().end_gen_finalized()
        }
    }

    /// A session is well formed when every cluster is well formed and owned
    /// by this session, the chain is gapless in local-ID space, and the chain
    /// starts at generation count 1.
    pub open spec fn wf(self) -> bool {
        &&& forall|j: int|
            0 <= j < self.chain().len() ==> (#[trigger] self.chain()[j]).wf()
                && self.chain()[j].session_creator.index == self.index
        &&& forall|j: int|
            0 <= j < self.chain().len() - 1 ==> (#[trigger] self.chain()[j]).end_gen_allocated()
                == self.chain()[j + 1].base_gen()
        &&& self.chain().len() > 0 ==> self.chain()[0].base_gen() == 1
    }

    /// True when some chain cluster covers generation count `g`.
    pub open spec fn some_cluster_covers(self, g: int, allocated: bool) -> bool {
        exists|j: int|
            0 <= j < self.chain().len() && (#[trigger] self.chain()[j]).covers_gen(g, allocated)
    }

    /// Creates a session with an empty chain.
    pub fn new(session_id: SessionId, index: usize) -> (r: SessionSpace)
        ensures
            r.session_id == session_id,
            r.index == index,
            r.chain().len() == 0,
            r.wf(),
    {
        SessionSpace { session_id, index, cluster_chain: Vec::new() }
    }

    /// The session's 128-bit identifier.
    pub fn session_id(&self) -> (r: SessionId)
        ensures
            r == self.session_id,
    {
        self.session_id
    }

    /// The session's stable table index.
    pub fn get_index(&self) -> (r: usize)
        ensures
            r == self.index,
    {
        self.index
    }

    /// True when the session owns no cluster yet.
    pub fn cluster_chain_is_empty(&self) -> (r: bool)
        ensures
            r == (self.chain().len() == 0),
    {
        self.cluster_chain.len() == 0
    }

    /// The last cluster of the chain, if any.
    pub fn get_tail_cluster(&self) -> (r: Option<IdCluster>)
        ensures
            match r {
                Some(c) => self.chain().len() > 0 && c == self.chain().last(),
                None => self.chain().len() == 0,
            },
    {
        if self.cluster_chain.len() == 0 {
            None
        } else {
            Some(self.cluster_chain[self.cluster_chain.len() - 1])
        }
    }

    /// Converts a local ID of this session to its aligned final ID, if some
    /// chain cluster covers it: its allocated extent when `include_allocated`,
    /// else only its finalized extent.
    pub fn try_convert_to_final(&self, search_local: LocalId, include_allocated: bool) -> (r:
        Option<FinalId>)
        requires
            self.wf(),
            search_local.wf(),
        ensures
            match r {
                Some(f) => exists|j: int|
                    0 <= j < self.chain().len() && (#[trigger] self.chain()[j]).covers_gen(
                        search_local.gen(),
                        include_allocated,
                    ) && f.id == self.chain()[j].final_of_gen(search_local.gen()) && f.wf(),
                None => !self.some_cluster_covers(search_local.gen(), include_allocated),
            },
    {
        let g: u64 = search_local.to_generation_count();
        let n: usize = self.cluster_chain.len();
        let mut j: usize = 0;
        while j < n
            invariant
                self.wf(),
                search_local.wf(),
                g == search_local.gen(),
                n == self.chain().len(),
                0 <= j <= n,
                forall|k: int|
                    0 <= k < j ==> !(#[trigger] self.chain()[k]).covers_gen(
                        search_local.gen(),
                        include_allocated,
                    ),
            decreases n - j,
        {
            let c = self.cluster_chain[j];
            let base: u64 = c.base_local_id.to_generation_count();
            let bound: u64 = if include_allocated {
                c.capacity
            } else {
                c.count
            };
            if base <= g && g - base < bound {
                return Some(c.base_final_id.add_offset(g - base));
            }
            j = j + 1;
        }
        None
    }

    /// The chain cluster whose allocated final-ID extent covers `final_id`,
    /// if any.
    pub fn get_cluster_by_allocated_final(&self, final_id: FinalId) -> (r: Option<IdCluster>)
        requires
            self.wf(),
        ensures
            match r {
                Some(c) => exists|j: int|
                    0 <= j < self.chain().len() && #[trigger] self.chain()[j] == c
                        && c.covers_final(final_id.id as int),
                None => forall|j: int|
                    0 <= j < self.chain().len() ==> !(#[trigger] self.chain()[j]).covers_final(
                        final_id.id as int,
                    ),
            },
    {
        let n: usize = self.cluster_chain.len();
        let mut j: usize = 0;
        while j < n
            invariant
                self.wf(),
                n == self.chain().len(),
                0 <= j <= n,
                forall|k: int|
                    0 <= k < j ==> !(#[trigger] self.chain()[k]).covers_final(final_id.id as int),
            decreases n - j,
        {
            let c = self.cluster_chain[j];
            if c.base_final_id.id <= final_id.id && final_id.id - c.base_final_id.id < c.capacity {
                return Some(c);
            }
            j = j + 1;
        }
        None
    }
}

/// Every chain cluster's generation extent lies within `[1, end_gen)`.
pub proof fn lemma_chain_cluster_bounds(s: SessionSpace, j: int)
    requires
        s.wf(),
        0 <= j < s.chain().len(),
    ensures
        1 <= s.chain()[j].base_gen(),
        s.chain()[j].end_gen_allocated() <= s.end_gen(),
    decreases j,
{
    if j == 0 {
        assert(s.chain()[0].base_gen() == 1);
    } else {
        lemma_chain_cluster_bounds(s, j - 1);
        assert(s.chain()[j - 1].end_gen_allocated() == s.chain()[j].base_gen());
    }
    if j < s.chain().len() - 1 {
        lemma_chain_suffix_bound(s, j);
    }
}

/// Chain extents grow monotonically from `j` to the tail.
proof fn lemma_chain_suffix_bound(s: SessionSpace, j: int)
    requires
        s.wf(),
        0 <= j < s.chain().len(),
    ensures
        s.chain()[j].end_gen_allocated() <= s.end_gen(),
    decreases s.chain().len() - j,
{
    if j < s.chain().len() - 1 {
        assert(s.chain()[j].end_gen_allocated() == s.chain()[j + 1].base_gen());
        assert(s.chain()[j + 1].base_gen() < s.chain()[j + 1].end_gen_allocated()) by {
            assert(s.chain()[j + 1].wf());
        }
        lemma_chain_suffix_bound(s, j + 1);
    }
}

/// Any generation count in `[1, end_gen)` is covered by some chain cluster.
pub proof fn lemma_chain_coverage(s: SessionSpace, g: int)
    requires
        s.wf(),
        1 <= g < s.end_gen(),
    ensures
        s.some_cluster_covers(g, true),
{
    lemma_chain_find(s, g, s.chain().len() - 1);
}

/// Finds the covering cluster at or before index `j`, walking backwards.
proof fn lemma_chain_find(s: SessionSpace, g: int, j: int)
    requires
        s.wf(),
        0 <= j < s.chain().len(),
        1 <= g < s.chain()[j].end_gen_allocated(),
    ensures
        s.some_cluster_covers(g, true),
    decreases j,
{
    if s.chain()[j].base_gen() <= g {
        assert(s.chain()[j].covers_gen(g, true));
    } else {
        assert(j > 0) by {
            if j == 0 {
                assert(s.chain()[0].base_gen() == 1);
            }
        }
        assert(s.chain()[j - 1].end_gen_allocated() == s.chain()[j].base_gen());
        lemma_chain_find(s, g, j - 1);
    }
}

/// At most one chain cluster covers a given generation count.
pub proof fn lemma_chain_gen_unique(s: SessionSpace, g: int, j: int, k: int)
    requires
        s.wf(),
        0 <= j < s.chain().len(),
        0 <= k < s.chain().len(),
        s.chain()[j].covers_gen(g, true),
        s.chain()[k].covers_gen(g, true),
    ensures
        j == k,
{
    if j < k {
        lemma_chain_disjoint(s, j, k);
    } else if k < j {
        lemma_chain_disjoint(s, k, j);
    }
}

/// Distinct chain clusters cover disjoint generation counts.
pub proof fn lemma_chain_disjoint(s: SessionSpace, j: int, k: int)
    requires
        s.wf(),
        0 <= j < k < s.chain().len(),
    ensures
        s.chain()[j].end_gen_allocated() <= s.chain()[k].base_gen(),
    decreases k - j,
{
    if j + 1 == k {
    } else {
        lemma_chain_disjoint(s, j, k - 1);
        assert(s.chain()[k - 1].end_gen_allocated() == s.chain()[k].base_gen());
        assert(s.chain()[k - 1].wf());
    }
}

/// The contents of one cluster together with its owning session's
/// identifier: what equality of finalized state compares, independent of
/// table indices.
pub ghost struct ClusterRecord {
    /// The owning session's 128-bit identifier.
    pub sid: u128,
    /// The 1-based generation count at cluster offset 0.
    pub base_gen: int,
    /// The final ID at cluster offset 0.
    pub base_final: int,
    /// The reserved slot count.
    pub capacity: int,
    /// The finalized slot count.
    pub count: int,
}

/// The set of known sessions, array-backed so that a session's index (its
/// "token") is stable across the compressor's lifetime.
#[derive(Debug)]
pub struct Sessions {
    /// The sessions, in creation order.
    pub session_list: Vec<SessionSpace>,
}

impl Sessions {
    /// The table as a sequence, for specifications.
    pub open spec fn table(self) -> Seq<SessionSpace> {
        self.session_list@
    }

    /// True when `i` indexes a session.
    pub open spec fn valid_sref(self, i: int) -> bool {
        0 <= i < self.table().len()
    }

    /// True when `cref` names an existing cluster.
    pub open spec fn valid_cref(self, cref: ClusterRef) -> bool {
        &&& self.valid_sref(cref.session_space_ref.index as int)
        &&& 0 <= cref.cluster_index < self.table()[cref.session_space_ref.index as int].chain().len()
    }

    /// The cluster named by `cref`.
    pub open spec fn cluster_at(self, cref: ClusterRef) -> IdCluster {
        self.table()[cref.session_space_ref.index as int].chain()[cref.cluster_index as int]
    }

    /// The session identifier of the session that owns `cref`.
    pub open spec fn cluster_sid(self, cref: ClusterRef) -> u128 {
        self.table()[cref.session_space_ref.index as int].session_id.id
    }

    /// The base stable ID of the cluster named by `cref`.
    pub open spec fn cluster_base_stable(self, cref: ClusterRef) -> int {
        self.cluster_sid(cref) + self.cluster_at(cref).base_gen() - 1
    }

    /// One past the cluster's highest stable offset; the inclusive extent of
    /// a cluster in stable space is `[base_stable, base_stable + capacity]`.
    pub open spec fn cluster_max_stable(self, cref: ClusterRef) -> int {
        self.cluster_base_stable(cref) + self.cluster_at(cref).capacity
    }

    /// The record of the cluster named by `cref`.
    pub open spec fn record_of(self, cref: ClusterRef) -> ClusterRecord {
        ClusterRecord {
            sid: self.cluster_sid(cref),
            base_gen: self.cluster_at(cref).base_gen(),
            base_final: self.cluster_at(cref).base_final_id.id as int,
            capacity: self.cluster_at(cref).capacity as int,
            count: self.cluster_at(cref).count as int,
        }
    }

    /// True when some session in the table carries `sid`.
    pub open spec fn has_session(self, sid: SessionId) -> bool {
        exists|i: int| self.valid_sref(i) && (#[trigger] self.table()[i]).session_id == sid
    }

    /// The index of the session carrying `sid`.
    pub open spec fn index_of(self, sid: SessionId) -> int {
        choose|i: int| self.valid_sref(i) && (#[trigger] self.table()[i]).session_id == sid
    }

    /// The table is well formed when every session is well formed, knows its
    /// own index, carries a distinct identifier, and every cluster's stable
    /// extent fits 128 bits.
    pub open spec fn wf(self) -> bool {
        &&& forall|i: int|
            self.valid_sref(i) ==> (#[trigger] self.table()[i]).wf() && self.table()[i].index == i
        &&& forall|i: int, j: int|
            self.valid_sref(i) && self.valid_sref(j) && i != j ==> (#[trigger] self.table()[i]).session_id
                != (#[trigger] self.table()[j]).session_id
        &&& forall|i: int|
            self.valid_sref(i) ==> (#[trigger] self.table()[i]).session_id.id + self.table()[i].end_gen()
                - 1 <= u128::MAX
    }

    /// Creates an empty table.
    pub fn new() -> (r: Sessions)
        ensures
            r.table().len() == 0,
            r.wf(),
    {
        Sessions { session_list: Vec::new() }
    }

    /// The number of sessions known.
    pub fn len(&self) -> (r: usize)
        ensures
            r == self.table().len(),
    {
        self.session_list.len()
    }

    /// The reference of the session carrying `session_id`, creating the
    /// session with an empty chain when it is not yet known.
    pub fn get_or_create(&mut self, session_id: SessionId) -> (r: SessionSpaceRef)
        requires
            old(self).wf(),
        ensures
            final(self).wf(),
            final(self).valid_sref(r.index as int),
            final(self).table()[r.index as int].session_id == session_id,
            old(self).has_session(session_id) ==> *final(self) == *old(self) && old(
                self,
            ).valid_sref(r.index as int),
            !old(self).has_session(session_id) ==> {
                &&& final(self).table().len() == old(self).table().len() + 1
                &&& forall|k: int|
                    0 <= k < old(self).table().len() ==> final(self).table()[k] == (#[trigger] old(
                        self,
                    ).table()[k])
                &&& r.index == old(self).table().len()
                &&& final(self).table()[r.index as int].session_id == session_id
                &&& final(self).table()[r.index as int].index == r.index
                &&& final(self).table()[r.index as int].chain().len() == 0
            },
    {
        let n: usize = self.session_list.len();
        let mut i: usize = 0;
        while i < n
            invariant
                old(self).wf(),
                *self == *old(self),
                n == self.table().len(),
                0 <= i <= n,
                forall|k: int| 0 <= k < i ==> (#[trigger] self.table()[k]).session_id != session_id,
            decreases n - i,
        {
            if self.session_list[i].session_id.id == session_id.id {
                return SessionSpaceRef { index: i };
            }
            i = i + 1;
        }
        let fresh = SessionSpace::new(session_id, n);
        self.session_list.push(fresh);
        assert(!old(self).has_session(session_id));
        assert(self.wf()) by {
            assert(forall|k: int|
                0 <= k < n ==> self.table()[k] == (#[trigger] old(self).table()[k]));
        }
        SessionSpaceRef { index: n }
    }

    /// The session carrying `session_id`, if it is known.
    pub fn get(&self, session_id: SessionId) -> (r: Option<&SessionSpace>)
        requires
            self.wf(),
        ensures
            match r {
                Some(s) => self.has_session(session_id) && *s == self.table()[self.index_of(
                    session_id,
                )] && self.valid_sref(self.index_of(session_id)),
                None => !self.has_session(session_id),
            },
    {
        let n: usize = self.session_list.len();
        let mut i: usize = 0;
        while i < n
            invariant
                self.wf(),
                n == self.table().len(),
                0 <= i <= n,
                forall|k: int| 0 <= k < i ==> (#[trigger] self.table()[k]).session_id != session_id,
            decreases n - i,
        {
            if self.session_list[i].session_id.id == session_id.id {
                let s = &self.session_list[i];
                assert(self.valid_sref(i as int) && self.table()[i as int].session_id == session_id);
                proof {
                    let w = self.index_of(session_id);
                    assert(self.valid_sref(w) && self.table()[w].session_id == session_id);
                    assert(w == i as int);
                }
                return Some(s);
            }
            i = i + 1;
        }
        None
    }

    /// The session at the given reference.
    pub fn deref_session_space(&self, r: SessionSpaceRef) -> (s: &SessionSpace)
        requires
            self.valid_sref(r.index as int),
        ensures
            *s == self.table()[r.index as int],
    {
        &self.session_list[r.index]
    }

    /// The cluster at the given reference.
    pub fn deref_cluster(&self, cref: ClusterRef) -> (c: IdCluster)
        requires
            self.valid_cref(cref),
        ensures
            c == self.cluster_at(cref),
    {
        self.session_list[cref.session_space_ref.index].cluster_chain[cref.cluster_index]
    }

    /// The identifier of the session at the given reference.
    pub fn get_session_id(&self, r: SessionSpaceRef) -> (sid: SessionId)
        requires
            self.valid_sref(r.index as int),
        ensures
            sid == self.table()[r.index as int].session_id,
    {
        self.session_list[r.index].session_id
    }

    /// Appends an empty cluster (count 0) to the given session's chain,
    /// contiguously after the chain's allocated extent.
    pub fn add_empty_cluster(
        &mut self,
        sref: SessionSpaceRef,
        base_local: LocalId,
        base_final: FinalId,
        capacity: u64,
    ) -> (r: ClusterRef)
        requires
            old(self).wf(),
            old(self).valid_sref(sref.index as int),
            base_local.wf(),
            capacity >= 1,
            base_local.gen() == old(self).table()[sref.index as int].end_gen(),
            base_local.gen() + capacity <= i64::MAX,
            base_final.id + capacity <= i64::MAX,
            old(self).table()[sref.index as int].session_id.id + base_local.gen() - 1 + capacity
                <= u128::MAX,
        ensures
            final(self).wf(),
            r.session_space_ref == sref,
            r.cluster_index == old(self).table()[sref.index as int].chain().len(),
            final(self).valid_cref(r),
            final(self).table().len() == old(self).table().len(),
            forall|k: int|
                old(self).valid_sref(k) && k != sref.index ==> final(self).table()[k]
                    == (#[trigger] old(self).table()[k]),
            final(self).table()[sref.index as int].session_id == old(self).table()[sref.index as int].session_id,
            final(self).table()[sref.index as int].index == old(self).table()[sref.index as int].index,
            final(self).table()[sref.index as int].chain() == old(self).table()[sref.index as int].chain().push(
                IdCluster {
                    session_creator: sref,
                    base_local_id: base_local,
                    base_final_id: base_final,
                    capacity,
                    count: 0,
                },
            ),
    {
        let new_cluster = IdCluster {
            session_creator: sref,
            base_local_id: base_local,
            base_final_id: base_final,
            capacity,
            count: 0,
        };
        let ghost old_table = self.table();
        let idx: usize = self.session_list[sref.index].cluster_chain.len();
        self.session_list[sref.index].cluster_chain.push(new_cluster);
        assert(self.table()[sref.index as int].chain() == old_table[sref.index as int].chain().push(
            new_cluster,
        ));
        assert(self.wf()) by {
            let s = self.table()[sref.index as int];
            let olds = old_table[sref.index as int];
            assert(forall|j: int| 0 <= j < olds.chain().len() ==> s.chain()[j] == olds.chain()[j]);
            assert(s.chain().last() == new_cluster);
            if olds.chain().len() > 0 {
                lemma_chain_cluster_bounds(olds, olds.chain().len() - 1);
            }
            assert(s.wf());
            assert(s.session_id.id + s.end_gen() - 1 <= u128::MAX);
        }
        ClusterRef { session_space_ref: sref, cluster_index: idx }
    }

    /// Raises the finalized count of the cluster named by `cref`.
    pub fn set_cluster_count(&mut self, cref: ClusterRef, new_count: u64) -> (r: ())
        requires
            old(self).wf(),
            old(self).valid_cref(cref),
            new_count <= old(self).cluster_at(cref).capacity,
        ensures
            final(self).wf(),
            final(self).valid_cref(cref),
            final(self).table().len() == old(self).table().len(),
            forall|k: int|
                old(self).valid_sref(k) && k != cref.session_space_ref.index ==> final(self).table()[k] == (#[trigger] old(self).table()[k]),
            final(self).table()[cref.session_space_ref.index as int].session_id == old(
                self,
            ).table()[cref.session_space_ref.index as int].session_id,
            final(self).table()[cref.session_space_ref.index as int].index == old(
                self,
            ).table()[cref.session_space_ref.index as int].index,
            final(self).table()[cref.session_space_ref.index as int].chain() == old(
                self,
            ).table()[cref.session_space_ref.index as int].chain().update(
                cref.cluster_index as int,
                IdCluster { count: new_count, ..old(self).cluster_at(cref) },
            ),
            final(self).cluster_at(cref) == (IdCluster {
                count: new_count,
                ..old(self).cluster_at(cref)
            }),
    {
        let si: usize = cref.session_space_ref.index;
        let ci: usize = cref.cluster_index;
        let mut c = self.session_list[si].cluster_chain[ci];
        c.count = new_count;
        self.session_list[si].cluster_chain[ci] = c;
        proof {
            let s = self.table()[si as int];
            let olds = old(self).table()[si as int];
            assert(forall|j: int|
                0 <= j < olds.chain().len() && j != ci ==> s.chain()[j] == olds.chain()[j]);
            assert(s.chain()[ci as int].end_gen_allocated() == olds.chain()[
                ci as int].end_gen_allocated());
            assert(s.wf());
            assert(s.end_gen() == olds.end_gen());
        }
    }

    /// Grows the capacity of the last cluster of a session's chain in place
    /// and raises its finalized count.
    pub fn expand_cluster(&mut self, cref: ClusterRef, new_capacity: u64, new_count: u64) -> (r: ())
        requires
            old(self).wf(),
            old(self).valid_cref(cref),
            cref.cluster_index == old(self).table()[cref.session_space_ref.index as int].chain().len() - 1,
            new_capacity >= old(self).cluster_at(cref).capacity,
            new_count <= new_capacity,
            old(self).cluster_at(cref).base_gen() + new_capacity <= i64::MAX,
            old(self).cluster_at(cref).base_final_id.id + new_capacity <= i64::MAX,
            old(self).cluster_sid(cref) + old(self).cluster_at(cref).base_gen() - 1 + new_capacity
                <= u128::MAX,
        ensures
            final(self).wf(),
            final(self).valid_cref(cref),
            final(self).table().len() == old(self).table().len(),
            forall|k: int|
                old(self).valid_sref(k) && k != cref.session_space_ref.index ==> final(self).table()[k] == (#[trigger] old(self).table()[k]),
            final(self).table()[cref.session_space_ref.index as int].session_id == old(
                self,
            ).table()[cref.session_space_ref.index as int].session_id,
            final(self).table()[cref.session_space_ref.index as int].index == old(
                self,
            ).table()[cref.session_space_ref.index as int].index,
            final(self).table()[cref.session_space_ref.index as int].chain() == old(
                self,
            ).table()[cref.session_space_ref.index as int].chain().update(
                cref.cluster_index as int,
                IdCluster {
                    capacity: new_capacity,
                    count: new_count,
                    ..old(self).cluster_at(cref)
                },
            ),
            final(self).cluster_at(cref) == (IdCluster {
                capacity: new_capacity,
                count: new_count,
                ..old(self).cluster_at(cref)
            }),
    {
        let si: usize = cref.session_space_ref.index;
        let ci: usize = cref.cluster_index;
        let mut c = self.session_list[si].cluster_chain[ci];
        c.capacity = new_capacity;
        c.count = new_count;
        self.session_list[si].cluster_chain[ci] = c;
        proof {
            let s = self.table()[si as int];
            let olds = old(self).table()[si as int];
            assert(forall|j: int|
                0 <= j < olds.chain().len() && j != ci ==> s.chain()[j] == olds.chain()[j]);
            assert(s.wf());
        }
    }
}

} // verus!
