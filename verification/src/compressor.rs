//! The allocator facade: holds the session table, the final-space and
//! stable-space indices and the normalizer, and implements ID generation,
//! range taking, range finalization and the four mapping operations.

use vstd::prelude::*;

use crate::final_space::FinalSpace;
use crate::id_types::{
    AllocatorError, CompressedId, FinalId, LocalId, OpSpaceId, SessionId, SessionSpaceId, StableId,
};
use crate::normalizer::SessionSpaceNormalizer;
use crate::session_space::{
    lemma_chain_cluster_bounds, lemma_chain_disjoint, ClusterRef, IdCluster, SessionSpace,
    SessionSpaceRef, Sessions,
};
use crate::uuid_space::{
    lemma_pred_exists, lemma_uuid_sorted, uuid_inserted, UuidSpace,
};

verus! {

/// The reserved token value for an unknown session.
pub const NIL_TOKEN: i64 = -1;

/// The default sizing for new clusters.
pub const DEFAULT_CLUSTER_CAPACITY: u64 = 512;

/// Counts of notable allocator events, for logging and analysis.
#[derive(Clone, Copy, Debug, PartialEq, Eq, Structural)]
pub struct TelemetryStats {
    /// Count of allocated eager finals.
    pub eager_final_count: u64,
    /// Count of allocated local IDs.
    pub local_id_count: u64,
    /// Count of instances of tail-cluster expansion.
    pub expansion_count: u64,
    /// Count of new clusters created.
    pub cluster_creation_count: u64,
}

impl TelemetryStats {
    /// All counts zero.
    pub fn empty() -> (r: TelemetryStats)
        ensures
            r == (TelemetryStats {
                eager_final_count: 0,
                local_id_count: 0,
                expansion_count: 0,
                cluster_creation_count: 0,
            }),
    {
        TelemetryStats {
            eager_final_count: 0,
            local_id_count: 0,
            expansion_count: 0,
            cluster_creation_count: 0,
        }
    }
}

/// A range of IDs taken from one session, for communication to every
/// allocator: the originating session and, when any IDs were taken, the
/// 1-based generation count of the first ID and the count of IDs.
#[derive(Clone, Copy, Debug)]
pub struct IdRange {
    /// The originating session's identifier.
    pub id: SessionId,
    /// `Some((first generation count, count of IDs))`, or `None` when no IDs
    /// were generated since the last range was taken.
    pub range: Option<(u64, u64)>,
}

/// A distributed ID allocator: generates session-space IDs, takes ranges for
/// broadcast, finalizes ranges delivered in total order, and maps IDs between
/// the session-space, op-space and stable coordinate systems.
#[derive(Debug)]
pub struct IdCompressor {
    /// This allocator's own 128-bit session identifier.
    pub session_id: SessionId,
    /// The cached reference of this allocator's own session.
    pub local_session_ref: SessionSpaceRef,
    /// Count of the compressed IDs generated by `generate_next_id`.
    pub generated_id_count: u64,
    /// The generation count at which the next taken range begins.
    pub next_range_base_generation_count: u64,
    /// One greater than the largest finalized final ID.
    pub final_id_limit: FinalId,
    /// The sizing for newly created clusters.
    pub cluster_capacity: u64,
    /// Counts of notable allocator events.
    pub telemetry_stats: TelemetryStats,
    /// The set of known sessions and their cluster chains.
    pub sessions: Sessions,
    /// The clusters ordered by base final ID.
    pub final_space: FinalSpace,
    /// The clusters keyed by base stable ID.
    pub uuid_space: UuidSpace,
    /// The record of locals this session generated as locals.
    pub session_space_normalizer: SessionSpaceNormalizer,
}

/// The cluster reference naming chain position `ci` of session `si`.
pub open spec fn cref_at(si: int, ci: int) -> ClusterRef {
    ClusterRef {
        session_space_ref: SessionSpaceRef { index: si as usize },
        cluster_index: ci as usize,
    }
}

/// What one `generate_next_id` call does: the generated count rises by one;
/// with reserved tail capacity the result is the aligned eager final, else
/// the next local, newly recorded in the normalizer.
pub open spec fn generate_step(pre: IdCompressor, post: IdCompressor, r: SessionSpaceId) -> bool {
    &&& post.generated_id_count == pre.generated_id_count + 1
    &&& post.session_id == pre.session_id
    &&& post.local_session_ref == pre.local_session_ref
    &&& post.next_range_base_generation_count == pre.next_range_base_generation_count
    &&& post.final_id_limit == pre.final_id_limit
    &&& post.cluster_capacity == pre.cluster_capacity
    &&& post.sessions == pre.sessions
    &&& post.final_space == pre.final_space
    &&& post.uuid_space == pre.uuid_space
    &&& if pre.next_is_eager_final() {
        &&& r.id == pre.local_session().chain().last().final_of_gen(pre.generated_id_count + 1)
        &&& r.id >= 0
        &&& post.session_space_normalizer == pre.session_space_normalizer
    } else {
        &&& r.id == -(pre.generated_id_count + 1)
        &&& post.session_space_normalizer.wf()
        &&& forall|g: int|
            post.session_space_normalizer.contains_gen(g) == (
            pre.session_space_normalizer.contains_gen(g) || g == pre.generated_id_count + 1)
        &&& post.session_space_normalizer.end_gen() == pre.generated_id_count + 2
    }
}

/// What one `take_next_range` call does: the IDs generated since the last
/// taken range leave as a range, and the next range base passes them.
pub open spec fn take_step(pre: IdCompressor, post: IdCompressor, r: IdRange) -> bool {
    &&& r.id == pre.session_id
    &&& if pre.generated_id_count == pre.next_range_base_generation_count - 1 {
        r.range is None && post == pre
    } else {
        &&& r.range == Some(
            (
                pre.next_range_base_generation_count,
                (pre.generated_id_count - (pre.next_range_base_generation_count - 1)) as u64,
            ),
        )
        &&& post == (IdCompressor {
            next_range_base_generation_count: (pre.generated_id_count + 1) as u64,
            ..pre
        })
    }
}

/// Two allocators agree on all finalized state: the cluster sizing, the
/// final-ID limit, and the clusters with their owning sessions, in both the
/// final-space order and the stable-space order.
pub open spec fn finalized_eq(a: IdCompressor, b: IdCompressor) -> bool {
    &&& a.cluster_capacity == b.cluster_capacity
    &&& a.final_id_limit == b.final_id_limit
    &&& a.final_space.records(a.sessions) == b.final_space.records(b.sessions)
    &&& a.uuid_space.keyed_records(a.sessions) == b.uuid_space.keyed_records(b.sessions)
}

/// Two allocators additionally agree on all local state: the owning session,
/// the generated count, the next range base, and the normalizer's runs.
pub open spec fn locally_eq(a: IdCompressor, b: IdCompressor) -> bool {
    &&& a.session_id == b.session_id
    &&& a.generated_id_count == b.generated_id_count
    &&& a.next_range_base_generation_count == b.next_range_base_generation_count
    &&& a.session_space_normalizer.runs() == b.session_space_normalizer.runs()
}

/// A state that differs from a well-formed one only in its counters and
/// telemetry is well formed again once its counters are in range.
pub proof fn lemma_wf_frame(a: IdCompressor, b: IdCompressor)
    requires
        a.inv_structural(),
        b.sessions == a.sessions,
        b.final_space == a.final_space,
        b.uuid_space == a.uuid_space,
        b.local_session_ref == a.local_session_ref,
        b.session_id == a.session_id,
        b.session_space_normalizer.wf(),
        b.generated_id_count >= a.generated_id_count,
        b.generated_id_count <= i64::MAX,
        1 <= b.next_range_base_generation_count <= b.generated_id_count + 1,
        b.cluster_capacity >= 1,
        b.session_space_normalizer.end_gen() <= b.generated_id_count + 1,
    ensures
        b.inv_structural(),
        a.limit_ok() && b.final_id_limit == a.final_id_limit ==> b.wf(),
{
    assert forall|si: int, ci: int|
        0 <= si < b.sessions.table().len() && 0 <= ci
            < b.sessions.table()[si].chain().len() implies b.in_final_space(
        #[trigger] cref_at(si, ci),
    ) && b.in_uuid_space(cref_at(si, ci)) by {
        assert(a.in_final_space(cref_at(si, ci)) && a.in_uuid_space(cref_at(si, ci)));
        let k1 = choose|k: int|
            0 <= k < a.final_space.refs().len() && #[trigger] a.final_space.refs()[k] == cref_at(
                si,
                ci,
            );
        assert(b.final_space.refs()[k1] == cref_at(si, ci));
        let k2 = choose|k: int|
            0 <= k < a.uuid_space.entries().len() && (#[trigger] a.uuid_space.entries()[k]).1
                == cref_at(si, ci);
        assert(b.uuid_space.entries()[k2].1 == cref_at(si, ci));
    }
    assert(b.stable_extents_disjoint()) by {
        assert forall|x: ClusterRef, y: ClusterRef|
            b.sessions.valid_cref(x) && b.sessions.valid_cref(y) && x.session_space_ref
                != y.session_space_ref implies #[trigger] b.sessions.cluster_max_stable(x)
            < b.sessions.cluster_base_stable(y) || #[trigger] b.sessions.cluster_max_stable(y)
            < b.sessions.cluster_base_stable(x) by {
            assert(a.sessions.cluster_max_stable(x) < a.sessions.cluster_base_stable(y)
                || a.sessions.cluster_max_stable(y) < a.sessions.cluster_base_stable(x));
        }
    }
}

impl IdCompressor {
    /// This allocator's own session.
    pub open spec fn local_session(self) -> SessionSpace {
        self.sessions.table()[self.local_session_ref.index as int]
    }

    /// True when `cref` stands in the final space.
    pub open spec fn in_final_space(self, cref: ClusterRef) -> bool {
        exists|k: int|
            0 <= k < self.final_space.refs().len() && #[trigger] self.final_space.refs()[k] == cref
    }

    /// True when `cref` stands in the stable-space index.
    pub open spec fn in_uuid_space(self, cref: ClusterRef) -> bool {
        exists|k: int|
            0 <= k < self.uuid_space.entries().len() && (#[trigger] self.uuid_space.entries()[k]).1
                == cref
    }

    /// Both indices list every cluster of every session.
    pub open spec fn indices_complete(self) -> bool {
        forall|si: int, ci: int|
            0 <= si < self.sessions.table().len() && 0 <= ci
                < self.sessions.table()[si].chain().len() ==> self.in_final_space(
                #[trigger] cref_at(si, ci),
            ) && self.in_uuid_space(cref_at(si, ci))
    }

    /// Clusters of distinct sessions have disjoint inclusive stable extents.
    pub open spec fn stable_extents_disjoint(self) -> bool {
        forall|a: ClusterRef, b: ClusterRef|
            self.sessions.valid_cref(a) && self.sessions.valid_cref(b) && a.session_space_ref
                != b.session_space_ref ==> #[trigger] self.sessions.cluster_max_stable(a)
                < self.sessions.cluster_base_stable(b) || #[trigger] self.sessions.cluster_max_stable(
                b,
            ) < self.sessions.cluster_base_stable(a)
    }

    /// The cached final-ID limit equals one past the finalized count of the
    /// final space's tail cluster.
    pub open spec fn limit_ok(self) -> bool {
        if self.final_space.refs().len() == 0 {
            self.final_id_limit.id == 0
        } else {
            self.final_id_limit.id == self.sessions.cluster_at(
                self.final_space.refs().last(),
            ).base_final_id.id + self.sessions.cluster_at(self.final_space.refs().last()).count
        }
    }

    /// The structural invariant: well-formed tables and indices, a valid
    /// cached local-session reference, complete indices, disjoint stable
    /// extents across sessions, a well-formed normalizer that stays below the
    /// generated count, and in-range counters.
    pub open spec fn inv_structural(self) -> bool {
        &&& self.sessions.wf()
        &&& self.final_space.wf(self.sessions)
        &&& self.uuid_space.wf(self.sessions)
        &&& self.sessions.valid_sref(self.local_session_ref.index as int)
        &&& self.local_session().session_id == self.session_id
        &&& self.indices_complete()
        &&& self.stable_extents_disjoint()
        &&& self.session_space_normalizer.wf()
        &&& self.session_space_normalizer.end_gen() <= self.generated_id_count + 1
        &&& self.generated_id_count <= i64::MAX
        &&& 1 <= self.next_range_base_generation_count <= self.generated_id_count + 1
        &&& self.cluster_capacity >= 1
        &&& self.sessions.table().len() <= i64::MAX
    }

    /// The allocator's full invariant.
    pub open spec fn wf(self) -> bool {
        self.inv_structural() && self.limit_ok()
    }

    /// Returns the current default for cluster sizing.
    pub fn get_default_cluster_capacity() -> (r: u64)
        ensures
            r == DEFAULT_CLUSTER_CAPACITY,
    {
        DEFAULT_CLUSTER_CAPACITY
    }

    /// Instantiates an allocator owned by the supplied session: empty chains,
    /// no finalized IDs, and the default cluster sizing.
    pub fn new_with_session_id(session_id: SessionId) -> (r: IdCompressor)
        ensures
            r.wf(),
            r.session_id == session_id,
            r.generated_id_count == 0,
            r.next_range_base_generation_count == 1,
            r.final_id_limit.id == 0,
            r.cluster_capacity == DEFAULT_CLUSTER_CAPACITY,
            r.sessions.table().len() == 1,
            r.local_session().session_id == session_id,
            r.local_session().chain().len() == 0,
            r.final_space.refs().len() == 0,
            r.uuid_space.entries().len() == 0,
            r.session_space_normalizer.runs().len() == 0,
            r.telemetry_stats == (TelemetryStats {
                eager_final_count: 0,
                local_id_count: 0,
                expansion_count: 0,
                cluster_creation_count: 0,
            }),
    {
        let mut sessions = Sessions::new();
        let local_session_ref = sessions.get_or_create(session_id);
        IdCompressor {
            session_id,
            local_session_ref,
            generated_id_count: 0,
            next_range_base_generation_count: 1,
            final_id_limit: FinalId { id: 0 },
            cluster_capacity: DEFAULT_CLUSTER_CAPACITY,
            telemetry_stats: TelemetryStats::empty(),
            sessions,
            final_space: FinalSpace::new(),
            uuid_space: UuidSpace::new(),
            session_space_normalizer: SessionSpaceNormalizer::new(),
        }
    }

    /// Returns this allocator's session identifier.
    pub fn get_local_session_id(&self) -> (r: SessionId)
        ensures
            r == self.session_id,
    {
        self.session_id
    }

    /// Returns this allocator's own session.
    fn get_local_session_space(&self) -> (r: &SessionSpace)
        requires
            self.wf(),
        ensures
            *r == self.local_session(),
    {
        self.sessions.deref_session_space(self.local_session_ref)
    }

    /// Returns the stable token for the supplied session identifier, or
    /// `NoTokenForSession` when the session is not yet known.
    pub fn get_session_token_from_session_id(&self, session_id: SessionId) -> (r: Result<
        i64,
        AllocatorError,
    >)
        requires
            self.wf(),
        ensures
            match r {
                Ok(token) => self.sessions.has_session(session_id) && 0 <= token
                    < self.sessions.table().len() && self.sessions.table()[token as int].session_id
                    == session_id,
                Err(e) => e == AllocatorError::NoTokenForSession && !self.sessions.has_session(
                    session_id,
                ),
            },
    {
        match self.sessions.get(session_id) {
            None => Err(AllocatorError::NoTokenForSession),
            Some(session_space) => {
                proof {
                    let w = self.sessions.index_of(session_id);
                    assert(self.sessions.table()[w].index == w);
                }
                Ok(session_space.get_index() as i64)
            },
        }
    }

    /// Returns the current sizing used for new clusters.
    pub fn get_cluster_capacity(&self) -> (r: u64)
        ensures
            r == self.cluster_capacity,
    {
        self.cluster_capacity
    }

    /// Updates the sizing used for new cluster creation; rejects zero. This
    /// value must only change by ordered consensus, or sessions diverge.
    pub fn set_cluster_capacity(&mut self, new_cluster_capacity: u64) -> (r: Result<
        (),
        AllocatorError,
    >)
        requires
            old(self).wf(),
        ensures
            final(self).wf(),
            new_cluster_capacity < 1 ==> r == Err::<(), AllocatorError>(
                AllocatorError::InvalidClusterCapacity,
            ) && *final(self) == *old(self),
            new_cluster_capacity >= 1 ==> r == Ok::<(), AllocatorError>(()) && *final(self)
                == (IdCompressor { cluster_capacity: new_cluster_capacity, ..*old(self) }),
    {
        if new_cluster_capacity < 1 {
            Err(AllocatorError::InvalidClusterCapacity)
        } else {
            self.cluster_capacity = new_cluster_capacity;
            proof {
                lemma_wf_frame(*old(self), *self);
            }
            Ok(())
        }
    }

    /// Returns and resets the allocator's event counts.
    #[verifier::rlimit(25)]
    pub fn get_telemetry_stats(&mut self) -> (r: TelemetryStats)
        requires
            old(self).wf(),
        ensures
            final(self).wf(),
            r == old(self).telemetry_stats,
            *final(self) == (IdCompressor {
                telemetry_stats: TelemetryStats {
                    eager_final_count: 0,
                    local_id_count: 0,
                    expansion_count: 0,
                    cluster_creation_count: 0,
                },
                ..*old(self)
            }),
    {
        let stats = self.telemetry_stats;
        self.telemetry_stats = TelemetryStats::empty();
        proof {
            lemma_wf_frame(*old(self), *self);
        }
        stats
    }

    /// True when a tail cluster exists for the local session whose reserved
    /// capacity covers one more generated ID: the next ID is an eager final.
    pub open spec fn next_is_eager_final(self) -> bool {
        &&& self.local_session().chain().len() > 0
        &&& self.generated_id_count + 1 < self.local_session().chain().last().end_gen_allocated()
    }

    /// The local session's chain never runs ahead of generation: required
    /// before generating, and maintained by orderly use (`finalize_range`
    /// only ever receives ranges this allocator took).
    pub open spec fn chain_within_generated(self) -> bool {
        self.local_session().chain().len() > 0 ==> self.local_session().chain().last().base_gen()
            <= self.generated_id_count + 1
    }

    /// Generates and returns this session's next ID: an eager final when the
    /// local tail cluster still has reserved capacity, else the next local.
    pub fn generate_next_id(&mut self) -> (r: SessionSpaceId)
        requires
            old(self).wf(),
            old(self).generated_id_count < i64::MAX,
            old(self).chain_within_generated(),
            old(self).telemetry_stats.eager_final_count < u64::MAX,
            old(self).telemetry_stats.local_id_count < u64::MAX,
        ensures
            final(self).wf(),
            final(self).generated_id_count == old(self).generated_id_count + 1,
            final(self).session_id == old(self).session_id,
            final(self).local_session_ref == old(self).local_session_ref,
            final(self).next_range_base_generation_count == old(
                self,
            ).next_range_base_generation_count,
            final(self).final_id_limit == old(self).final_id_limit,
            final(self).cluster_capacity == old(self).cluster_capacity,
            final(self).sessions == old(self).sessions,
            final(self).final_space == old(self).final_space,
            final(self).uuid_space == old(self).uuid_space,
            old(self).next_is_eager_final() ==> {
                &&& r.id == old(self).local_session().chain().last().final_of_gen(
                    old(self).generated_id_count + 1,
                )
                &&& r.id >= 0
                &&& final(self).session_space_normalizer == old(self).session_space_normalizer
                &&& final(self).telemetry_stats == (TelemetryStats {
                    eager_final_count: (old(self).telemetry_stats.eager_final_count + 1) as u64,
                    ..old(self).telemetry_stats
                })
            },
            generate_step(*old(self), *final(self), r),
            !old(self).next_is_eager_final() ==> {
                &&& r.id == -(old(self).generated_id_count + 1)
                &&& final(self).session_space_normalizer.wf()
                &&& forall|g: int|
                    final(self).session_space_normalizer.contains_gen(g) == (old(
                        self,
                    ).session_space_normalizer.contains_gen(g) || g == old(self).generated_id_count
                        + 1)
                &&& final(self).session_space_normalizer.end_gen() == old(self).generated_id_count
                    + 2
                &&& final(self).telemetry_stats == (TelemetryStats {
                    local_id_count: (old(self).telemetry_stats.local_id_count + 1) as u64,
                    ..old(self).telemetry_stats
                })
            },
    {
        self.generated_id_count = self.generated_id_count + 1;
        let tail_cluster: Option<IdCluster> = self.sessions.deref_session_space(
            self.local_session_ref,
        ).get_tail_cluster();
        match tail_cluster {
            None => {
                let local = self.generate_next_local_id();
                SessionSpaceId::from_local(local)
            },
            Some(tail) => {
                let base_gen: u64 = tail.base_local_id.to_generation_count();
                let cluster_offset: u64 = self.generated_id_count - base_gen;
                if tail.capacity > cluster_offset {
                    self.telemetry_stats.eager_final_count =
                    self.telemetry_stats.eager_final_count + 1;
                    proof {
                        lemma_wf_frame(*old(self), *self);
                    }
                    let eager = tail.base_final_id.add_offset(cluster_offset);
                    SessionSpaceId::from_final(eager)
                } else {
                    let local = self.generate_next_local_id();
                    SessionSpaceId::from_local(local)
                }
            },
        }
    }

    /// Generates the next local ID and records it in the normalizer.
    fn generate_next_local_id(&mut self) -> (r: LocalId)
        requires
            old(self).inv_structural(),
            old(self).limit_ok(),
            1 <= old(self).generated_id_count <= i64::MAX,
            old(self).session_space_normalizer.end_gen() <= old(self).generated_id_count,
            old(self).telemetry_stats.local_id_count < u64::MAX,
        ensures
            final(self).wf(),
            r.wf(),
            r.gen() == old(self).generated_id_count,
            r.id == -old(self).generated_id_count,
            final(self).session_space_normalizer.wf(),
            forall|g: int|
                final(self).session_space_normalizer.contains_gen(g) == (old(
                    self,
                ).session_space_normalizer.contains_gen(g) || g == old(self).generated_id_count),
            final(self).session_space_normalizer.end_gen() == old(self).generated_id_count + 1,
            final(self).telemetry_stats == (TelemetryStats {
                local_id_count: (old(self).telemetry_stats.local_id_count + 1) as u64,
                ..old(self).telemetry_stats
            }),
            *final(self) == (IdCompressor {
                session_space_normalizer: final(self).session_space_normalizer,
                telemetry_stats: final(self).telemetry_stats,
                ..*old(self)
            }),
    {
        self.telemetry_stats.local_id_count = self.telemetry_stats.local_id_count + 1;
        let new_local = LocalId::from_generation_count(self.generated_id_count);
        self.session_space_normalizer.add_local_range(new_local, 1);
        proof {
            lemma_wf_frame(*old(self), *self);
        }
        new_local
    }

    /// Returns the range of IDs created by this session since the last taken
    /// range: `None` when none were created, else the base generation count
    /// and the count, and advances the next range base past them.
    #[verifier::rlimit(30)]
    pub fn take_next_range(&mut self) -> (r: IdRange)
        requires
            old(self).wf(),
        ensures
            final(self).wf(),
            take_step(*old(self), *final(self), r),
            r.id == old(self).session_id,
            old(self).generated_id_count == old(self).next_range_base_generation_count - 1 ==> {
                &&& r.range is None
                &&& *final(self) == *old(self)
            },
            old(self).generated_id_count > old(self).next_range_base_generation_count - 1 ==> {
                &&& r.range == Some(
                    (
                        old(self).next_range_base_generation_count,
                        (old(self).generated_id_count - (old(self).next_range_base_generation_count
                            - 1)) as u64,
                    ),
                )
                &&& *final(self) == (IdCompressor {
                    next_range_base_generation_count: (old(self).generated_id_count + 1) as u64,
                    ..*old(self)
                })
            },
    {
        let count: u64 = self.generated_id_count - (self.next_range_base_generation_count - 1);
        if count == 0 {
            IdRange { id: self.session_id, range: None }
        } else {
            let next_range = Some((self.next_range_base_generation_count, count));
            self.next_range_base_generation_count = self.generated_id_count + 1;
            proof {
                lemma_wf_frame(*old(self), *self);
            }
            IdRange { id: self.session_id, range: next_range }
        }
    }

    /// One past the last reserved final ID across all sessions.
    pub open spec fn fs_end(self) -> int {
        self.final_space.end_final(self.sessions)
    }

    /// The probe `finalize_range` makes before allocating: the predecessor of
    /// `max` in stable space is a cluster of another session whose inclusive
    /// extent reaches back to `base`.
    pub open spec fn collision_check(self, originator: SessionId, base: int, max: int) -> bool {
        exists|p: int|
            #[trigger] self.uuid_space.is_pred_idx(max, p) && self.sessions.cluster_sid(
                self.uuid_space.cref(p),
            ) != originator.id && base <= self.sessions.cluster_max_stable(self.uuid_space.cref(p))
    }

    /// The cluster chain of the session carrying `sid`; empty when the
    /// session is not yet known.
    pub open spec fn session_chain(self, sid: SessionId) -> Seq<IdCluster> {
        if self.sessions.has_session(sid) {
            self.sessions.table()[self.sessions.index_of(sid)].chain()
        } else {
            Seq::empty()
        }
    }

    /// The table index `finalize_range` on `sid` works with: the session's
    /// index when known, else the index the new session is created at.
    pub open spec fn session_index_for(self, sid: SessionId) -> int {
        if self.sessions.has_session(sid) {
            self.sessions.index_of(sid)
        } else {
            self.sessions.table().len() as int
        }
    }

    /// True when `tail` is the last cluster of the final space, and so may
    /// expand in place.
    pub open spec fn tail_is_global_last(self, tail: IdCluster) -> bool {
        self.final_space.refs().len() > 0 && self.sessions.cluster_at(
            self.final_space.refs().last(),
        ).base_final_id == tail.base_final_id
    }

    /// Creates an empty cluster at the end of the given session's chain,
    /// based at the end of the final space, and registers it with both
    /// indices. The new stable extent must meet no foreign cluster.
    #[verifier::rlimit(100)]
    #[verifier::spinoff_prover]
    fn add_empty_cluster(
        &mut self,
        session_space_ref: SessionSpaceRef,
        base_local: LocalId,
        capacity: u64,
    ) -> (r: ClusterRef)
        requires
            old(self).inv_structural(),
            old(self).sessions.valid_sref(session_space_ref.index as int),
            base_local.wf(),
            capacity >= 1,
            base_local.gen() == old(self).sessions.table()[session_space_ref.index as int].end_gen(),
            base_local.gen() + capacity <= i64::MAX,
            old(self).fs_end() + capacity <= i64::MAX,
            old(self).sessions.table()[session_space_ref.index as int].session_id.id
                + base_local.gen() - 1 + capacity <= u128::MAX,
            forall|x: ClusterRef|
                old(self).sessions.valid_cref(x) && x.session_space_ref != session_space_ref
                    ==> #[trigger] old(self).sessions.cluster_max_stable(x) < old(
                    self,
                ).sessions.table()[session_space_ref.index as int].session_id.id + base_local.gen()
                    - 1 || old(self).sessions.cluster_base_stable(x) > old(
                    self,
                ).sessions.table()[session_space_ref.index as int].session_id.id + base_local.gen()
                    - 1 + capacity,
        ensures
            final(self).inv_structural(),
            r == cref_at(
                session_space_ref.index as int,
                old(self).sessions.table()[session_space_ref.index as int].chain().len() as int,
            ),
            final(self).sessions.valid_cref(r),
            final(self).sessions.table().len() == old(self).sessions.table().len(),
            forall|k: int|
                0 <= k < old(self).sessions.table().len() && k != session_space_ref.index
                    ==> final(self).sessions.table()[k] == (#[trigger] old(self).sessions.table()[k]),
            final(self).sessions.table()[session_space_ref.index as int].session_id == old(
                self,
            ).sessions.table()[session_space_ref.index as int].session_id,
            final(self).sessions.table()[session_space_ref.index as int].index == old(
                self,
            ).sessions.table()[session_space_ref.index as int].index,
            final(self).sessions.table()[session_space_ref.index as int].chain() == old(
                self,
            ).sessions.table()[session_space_ref.index as int].chain().push(
                IdCluster {
                    session_creator: session_space_ref,
                    base_local_id: base_local,
                    base_final_id: FinalId { id: old(self).fs_end() as u64 },
                    capacity,
                    count: 0,
                },
            ),
            final(self).final_space.refs() == old(self).final_space.refs().push(r),
            uuid_inserted(
                old(self).uuid_space,
                final(self).uuid_space,
                old(self).sessions.table()[session_space_ref.index as int].session_id.id
                    + base_local.gen() - 1,
                r,
            ),
            final(self).fs_end() == old(self).fs_end() + capacity,
            final(self).session_id == old(self).session_id,
            final(self).local_session_ref == old(self).local_session_ref,
            final(self).generated_id_count == old(self).generated_id_count,
            final(self).next_range_base_generation_count == old(
                self,
            ).next_range_base_generation_count,
            final(self).final_id_limit == old(self).final_id_limit,
            final(self).cluster_capacity == old(self).cluster_capacity,
            final(self).telemetry_stats == old(self).telemetry_stats,
            final(self).session_space_normalizer == old(self).session_space_normalizer,
    {
        let ghost pre = *self;
        let sid: SessionId = self.sessions.get_session_id(session_space_ref);
        let next_base_final: FinalId = match self.final_space.get_tail_cluster_ref() {
            Some(cr) => {
                let c = self.sessions.deref_cluster(cr);
                proof {
                    assert(self.sessions.cluster_at(cr).wf());
                }
                c.base_final_id.add_offset(c.capacity)
            },
            None => FinalId { id: 0 },
        };
        assert(next_base_final.id == pre.fs_end());
        let ghost newc = IdCluster {
            session_creator: session_space_ref,
            base_local_id: base_local,
            base_final_id: next_base_final,
            capacity,
            count: 0,
        };
        let ghost new_key = pre.sessions.table()[session_space_ref.index as int].session_id.id
            + base_local.gen() - 1;
        let new_cluster_ref = self.sessions.add_empty_cluster(
            session_space_ref,
            base_local,
            next_base_final,
            capacity,
        );
        proof {
            let si = session_space_ref.index as int;
            let ci = pre.sessions.table()[si].chain().len() as int;
            assert(new_cluster_ref == cref_at(si, ci));
            assert(self.sessions.cluster_at(new_cluster_ref) == newc);
            assert forall|x: ClusterRef| pre.sessions.valid_cref(x) implies self.sessions.valid_cref(
                x,
            ) && self.sessions.cluster_at(x) == pre.sessions.cluster_at(x)
                && self.sessions.cluster_sid(x) == pre.sessions.cluster_sid(x) by {
                if x.session_space_ref.index as int == si {
                    assert(self.sessions.table()[si].chain()[x.cluster_index as int]
                        == pre.sessions.table()[si].chain()[x.cluster_index as int]);
                }
            }
            assert(self.final_space.wf(self.sessions)) by {
                assert(forall|i: int|
                    0 <= i < self.final_space.refs().len() ==> self.sessions.valid_cref(
                        #[trigger] self.final_space.refs()[i],
                    ) && self.sessions.cluster_at(self.final_space.refs()[i])
                        == pre.sessions.cluster_at(self.final_space.refs()[i]));
            }
            assert(self.uuid_space.wf(self.sessions));
            assert forall|i: int|
                0 <= i < self.uuid_space.entries().len() implies #[trigger] self.uuid_space.key(i)
                != new_key by {
                let x = self.uuid_space.cref(i);
                assert(pre.sessions.valid_cref(x));
                assert(self.uuid_space.key(i) == self.sessions.cluster_base_stable(x));
                if x.session_space_ref == session_space_ref {
                    lemma_chain_cluster_bounds(pre.sessions.table()[si], x.cluster_index as int);
                    assert(pre.sessions.cluster_at(x).base_gen() < base_local.gen());
                } else {
                    assert(pre.sessions.cluster_max_stable(x) < new_key
                        || pre.sessions.cluster_base_stable(x) > new_key + capacity);
                    assert(pre.sessions.cluster_base_stable(x) <= pre.sessions.cluster_max_stable(
                        x,
                    )) by {
                        assert(pre.sessions.cluster_at(x).wf());
                    }
                }
            }
        }
        self.final_space.add_cluster(new_cluster_ref);
        self.uuid_space.add_cluster(sid, new_cluster_ref, &self.sessions);
        proof {
            let si = session_space_ref.index as int;
            let ci = pre.sessions.table()[si].chain().len() as int;
            assert(self.sessions.cluster_base_stable(new_cluster_ref) == new_key);
            assert(self.sessions.cluster_max_stable(new_cluster_ref) == new_key + capacity);
            assert(self.final_space.wf(self.sessions)) by {
                if pre.final_space.refs().len() > 0 {
                    assert(self.final_space.refs()[self.final_space.refs().len() - 2]
                        == pre.final_space.refs().last());
                }
            }
            assert(self.indices_complete()) by {
                assert forall|si2: int, ci2: int|
                    0 <= si2 < self.sessions.table().len() && 0 <= ci2
                        < self.sessions.table()[si2].chain().len() implies self.in_final_space(
                    #[trigger] cref_at(si2, ci2),
                ) && self.in_uuid_space(cref_at(si2, ci2)) by {
                    if si2 == si && ci2 == ci {
                        assert(self.final_space.refs().last() == new_cluster_ref);
                        let j = choose|j: int|
                            0 <= j < self.uuid_space.entries().len()
                                && #[trigger] self.uuid_space.entries()[j] == (
                            StableId { id: new_key as u128 },
                            new_cluster_ref,
                        );
                        assert(self.uuid_space.entries()[j].1 == cref_at(si2, ci2));
                    } else {
                        assert(0 <= si2 < pre.sessions.table().len() && 0 <= ci2
                            < pre.sessions.table()[si2].chain().len());
                        assert(pre.in_final_space(cref_at(si2, ci2)) && pre.in_uuid_space(
                            cref_at(si2, ci2),
                        ));
                        let k1 = choose|k: int|
                            0 <= k < pre.final_space.refs().len()
                                && #[trigger] pre.final_space.refs()[k] == cref_at(si2, ci2);
                        assert(self.final_space.refs()[k1] == cref_at(si2, ci2));
                        let k2 = choose|k: int|
                            0 <= k < pre.uuid_space.entries().len() && (
                            #[trigger] pre.uuid_space.entries()[k]).1 == cref_at(si2, ci2);
                        let j = choose|j: int|
                            0 <= j < self.uuid_space.entries().len()
                                && #[trigger] self.uuid_space.entries()[j]
                                == (#[trigger] pre.uuid_space.entries()[k2]);
                        assert(self.uuid_space.entries()[j].1 == cref_at(si2, ci2));
                    }
                }
            }
            assert(self.stable_extents_disjoint()) by {
                assert forall|x: ClusterRef, y: ClusterRef|
                    self.sessions.valid_cref(x) && self.sessions.valid_cref(y) && x.session_space_ref
                        != y.session_space_ref implies #[trigger] self.sessions.cluster_max_stable(
                    x,
                ) < self.sessions.cluster_base_stable(y)
                    || #[trigger] self.sessions.cluster_max_stable(y)
                    < self.sessions.cluster_base_stable(x) by {
                    if x == new_cluster_ref {
                        assert(pre.sessions.valid_cref(y));
                        assert(pre.sessions.cluster_max_stable(y) < new_key
                            || pre.sessions.cluster_base_stable(y) > new_key + capacity);
                    } else if y == new_cluster_ref {
                        assert(pre.sessions.valid_cref(x));
                        assert(pre.sessions.cluster_max_stable(x) < new_key
                            || pre.sessions.cluster_base_stable(x) > new_key + capacity);
                    } else {
                        assert(pre.sessions.valid_cref(x) && pre.sessions.valid_cref(y));
                        assert(pre.sessions.cluster_max_stable(x) < pre.sessions.cluster_base_stable(
                            y,
                        ) || pre.sessions.cluster_max_stable(y)
                            < pre.sessions.cluster_base_stable(x));
                    }
                }
            }
        }
        new_cluster_ref
    }

    /// The cluster the stable-space index resolves `q` to: the cluster with
    /// the greatest base stable ID at or below `q`, if its inclusive extent
    /// reaches `q`.
    pub open spec fn stable_containing_cluster(self, q: int) -> Option<ClusterRef> {
        if exists|p: int| #[trigger] self.uuid_space.is_pred_idx(q, p) {
            let p = choose|p: int| #[trigger] self.uuid_space.is_pred_idx(q, p);
            if q <= self.sessions.cluster_max_stable(self.uuid_space.cref(p)) {
                Some(self.uuid_space.cref(p))
            } else {
                None
            }
        } else {
            None
        }
    }

    /// True when some cluster's allocated final extent covers `f`.
    pub open spec fn some_fs_cluster_covers(self, f: int) -> bool {
        exists|k: int|
            0 <= k < self.final_space.refs().len() && self.sessions.cluster_at(
                #[trigger] self.final_space.refs()[k],
            ).covers_final(f)
    }

    /// The cluster whose allocated final extent covers `f`.
    pub open spec fn fs_cluster_covering(self, f: int) -> ClusterRef {
        self.final_space.refs()[choose|k: int|
            0 <= k < self.final_space.refs().len() && self.sessions.cluster_at(
                #[trigger] self.final_space.refs()[k],
            ).covers_final(f)]
    }

    /// What `decompress` returns: a recorded local maps to this session's
    /// stable space; a final maps through its cluster when its slot is
    /// finalized, or when this session handed it out as an eager final.
    pub open spec fn decompress_spec(self, id: SessionSpaceId) -> Result<StableId, AllocatorError> {
        if id.is_local_spec() {
            let g = -(id.id as int);
            if self.session_space_normalizer.contains_gen(g) {
                Ok(StableId { id: (self.session_id.id + g - 1) as u128 })
            } else {
                Err(AllocatorError::InvalidSessionSpaceId)
            }
        } else {
            let f = id.id as int;
            if self.some_fs_cluster_covers(f) {
                let cref = self.fs_cluster_covering(f);
                let cl = self.sessions.cluster_at(cref);
                let a = cl.gen_of_final(f);
                let stable = StableId {
                    id: (self.sessions.cluster_sid(cref) + a - 1) as u128,
                };
                if a < cl.base_gen() + cl.count {
                    Ok(stable)
                } else if cref.session_space_ref.index == self.local_session_ref.index
                    && !self.session_space_normalizer.contains_gen(a) && a
                    <= self.generated_id_count {
                    Ok(stable)
                } else {
                    Err(AllocatorError::InvalidSessionSpaceId)
                }
            } else {
                Err(AllocatorError::InvalidSessionSpaceId)
            }
        }
    }

    /// What `recompress` returns: a stable ID inside a known cluster maps
    /// back to this session's pending local, to the aligned final, or is
    /// rejected; one outside every cluster is accepted only as a pending
    /// local of this session.
    pub open spec fn recompress_spec(self, stable: int) -> Result<
        SessionSpaceId,
        AllocatorError,
    > {
        match self.stable_containing_cluster(stable) {
            None => {
                if stable >= self.session_id.id && stable - self.session_id.id + 1
                    <= self.generated_id_count && self.session_space_normalizer.contains_gen(
                    stable - self.session_id.id + 1,
                ) {
                    Ok(SessionSpaceId { id: (-(stable - self.session_id.id + 1)) as i64 })
                } else {
                    Err(AllocatorError::InvalidStableId)
                }
            },
            Some(cref) => {
                let cl = self.sessions.cluster_at(cref);
                let g = stable - self.sessions.cluster_sid(cref) + 1;
                if cref.session_space_ref.index == self.local_session_ref.index {
                    if self.session_space_normalizer.contains_gen(g) {
                        Ok(SessionSpaceId { id: (-g) as i64 })
                    } else if g <= self.generated_id_count {
                        if g < cl.base_gen() + cl.capacity {
                            Ok(SessionSpaceId { id: cl.final_of_gen(g) as i64 })
                        } else {
                            Err(AllocatorError::InvalidStableId)
                        }
                    } else {
                        Err(AllocatorError::InvalidStableId)
                    }
                } else {
                    if g < cl.base_gen() + cl.count {
                        Ok(SessionSpaceId { id: cl.final_of_gen(g) as i64 })
                    } else {
                        Err(AllocatorError::InvalidStableId)
                    }
                }
            },
        }
    }

    /// What `normalize_to_op_space` returns: finals pass through; a recorded
    /// local is sent as its aligned final once its slot is finalized, else as
    /// itself; an unrecorded local is rejected.
    pub open spec fn normalize_to_op_space_spec(self, id: SessionSpaceId) -> Result<
        OpSpaceId,
        AllocatorError,
    > {
        if !id.is_local_spec() {
            Ok(OpSpaceId { id: id.id })
        } else {
            let g = -(id.id as int);
            let chain = self.local_session().chain();
            if !self.session_space_normalizer.contains_gen(g) {
                Err(AllocatorError::InvalidSessionSpaceId)
            } else if self.local_session().some_cluster_covers(g, false) {
                let j = choose|j: int|
                    0 <= j < chain.len() && (#[trigger] chain[j]).covers_gen(g, false);
                Ok(OpSpaceId { id: chain[j].final_of_gen(g) as i64 })
            } else {
                Ok(OpSpaceId { id: id.id })
            }
        }
    }

    /// What `normalize_to_session_space_with_token` returns: an own local
    /// comes back as itself when still recorded, else as the eager final its
    /// slot aligned with; a foreign local maps through the originator's
    /// finalized clusters; a final inside this session's clusters maps back
    /// to its pending local when still recorded; other finals pass through
    /// when already finalized.
    pub open spec fn normalize_to_session_space_spec(self, id: OpSpaceId, token: int) -> Result<
        SessionSpaceId,
        AllocatorError,
    > {
        if id.is_local_spec() {
            let g = -(id.id as int);
            if token == self.local_session_ref.index {
                if self.session_space_normalizer.contains_gen(g) {
                    Ok(SessionSpaceId { id: id.id })
                } else if g <= self.generated_id_count {
                    let chain = self.local_session().chain();
                    if self.local_session().some_cluster_covers(g, true) {
                        let j = choose|j: int|
                            0 <= j < chain.len() && (#[trigger] chain[j]).covers_gen(g, true);
                        Ok(SessionSpaceId { id: chain[j].final_of_gen(g) as i64 })
                    } else {
                        Err(AllocatorError::InvalidOpSpaceId)
                    }
                } else {
                    Err(AllocatorError::InvalidOpSpaceId)
                }
            } else {
                let chain = self.sessions.table()[token].chain();
                if self.sessions.table()[token].some_cluster_covers(g, false) {
                    let j = choose|j: int|
                        0 <= j < chain.len() && (#[trigger] chain[j]).covers_gen(g, false);
                    Ok(SessionSpaceId { id: chain[j].final_of_gen(g) as i64 })
                } else {
                    Err(AllocatorError::InvalidOpSpaceId)
                }
            }
        } else {
            let f = id.id as int;
            let chain = self.local_session().chain();
            if exists|j: int| 0 <= j < chain.len() && (#[trigger] chain[j]).covers_final(f) {
                let j = choose|j: int|
                    0 <= j < chain.len() && (#[trigger] chain[j]).covers_final(f);
                let a = chain[j].gen_of_final(f);
                if self.session_space_normalizer.contains_gen(a) {
                    Ok(SessionSpaceId { id: (-a) as i64 })
                } else if a <= self.generated_id_count {
                    Ok(SessionSpaceId { id: id.id })
                } else {
                    Err(AllocatorError::InvalidOpSpaceId)
                }
            } else if f >= self.final_id_limit.id {
                Err(AllocatorError::InvalidOpSpaceId)
            } else {
                Ok(SessionSpaceId { id: id.id })
            }
        }
    }

    /// Normalizes a session-space ID to op space: what this session sends in
    /// ordered operations for an ID it holds.
    pub fn normalize_to_op_space(&self, id: SessionSpaceId) -> (r: Result<
        OpSpaceId,
        AllocatorError,
    >)
        requires
            self.wf(),
            id.wf(),
        ensures
            r == self.normalize_to_op_space_spec(id),
    {
        match id.to_space() {
            CompressedId::Final(final_id) => Ok(OpSpaceId::from_final(final_id)),
            CompressedId::Local(local_id) => {
                if !self.session_space_normalizer.contains(local_id) {
                    Err(AllocatorError::InvalidSessionSpaceId)
                } else {
                    let local_session_space = self.get_local_session_space();
                    match local_session_space.try_convert_to_final(local_id, false) {
                        Some(converted) => {
                            proof {
                                let g = local_id.gen();
                                let s = self.local_session();
                                let chain = s.chain();
                                let j1 = choose|j: int|
                                    0 <= j < chain.len() && (#[trigger] chain[j]).covers_gen(
                                        g,
                                        false,
                                    ) && converted.id == chain[j].final_of_gen(g) && converted.wf();
                                let j2 = choose|j: int|
                                    0 <= j < chain.len() && (#[trigger] chain[j]).covers_gen(
                                        g,
                                        false,
                                    );
                                assert(chain[j1].wf() && chain[j2].wf());
                                crate::session_space::lemma_chain_gen_unique(s, g, j1, j2);
                            }
                            Ok(OpSpaceId::from_final(converted))
                        },
                        None => Ok(OpSpaceId::from_local(local_id)),
                    }
                }
            },
        }
    }

    /// Normalizes an op-space ID to this session's session space, given the
    /// operation sender's session token (`NIL_TOKEN` for an unknown sender,
    /// legal only for finals). The token must come from this allocator.
    #[verifier::rlimit(100)]
    pub fn normalize_to_session_space_with_token(&self, id: OpSpaceId, originator_token: i64) -> (r:
        Result<SessionSpaceId, AllocatorError>)
        requires
            self.wf(),
            id.wf(),
            id.is_local_spec() ==> 0 <= originator_token < self.sessions.table().len(),
            originator_token == NIL_TOKEN || 0 <= originator_token < self.sessions.table().len(),
        ensures
            r == self.normalize_to_session_space_spec(id, originator_token as int),
    {
        match id.to_space() {
            CompressedId::Local(local_to_normalize) => {
                let ghost g = local_to_normalize.gen();
                let originator_ref = SessionSpaceRef { index: originator_token as usize };
                if originator_ref.index == self.local_session_ref.index {
                    if self.session_space_normalizer.contains(local_to_normalize) {
                        Ok(SessionSpaceId::from_local(local_to_normalize))
                    } else if local_to_normalize.to_generation_count() <= self.generated_id_count {
                        match self.get_local_session_space().try_convert_to_final(
                            local_to_normalize,
                            true,
                        ) {
                            None => Err(AllocatorError::InvalidOpSpaceId),
                            Some(allocated_final) => {
                                proof {
                                    let s = self.local_session();
                                    let chain = s.chain();
                                    let j1 = choose|j: int|
                                        0 <= j < chain.len() && (#[trigger] chain[j]).covers_gen(
                                            g,
                                            true,
                                        ) && allocated_final.id == chain[j].final_of_gen(g)
                                            && allocated_final.wf();
                                    let j2 = choose|j: int|
                                        0 <= j < chain.len() && (#[trigger] chain[j]).covers_gen(
                                            g,
                                            true,
                                        );
                                    crate::session_space::lemma_chain_gen_unique(s, g, j1, j2);
                                }
                                Ok(SessionSpaceId::from_final(allocated_final))
                            },
                        }
                    } else {
                        Err(AllocatorError::InvalidOpSpaceId)
                    }
                } else {
                    let foreign_session_space = self.sessions.deref_session_space(originator_ref);
                    proof {
                        assert(foreign_session_space.wf());
                    }
                    match foreign_session_space.try_convert_to_final(local_to_normalize, false) {
                        Some(final_id) => {
                            proof {
                                let s = self.sessions.table()[originator_token as int];
                                let chain = s.chain();
                                let j1 = choose|j: int|
                                    0 <= j < chain.len() && (#[trigger] chain[j]).covers_gen(
                                        g,
                                        false,
                                    ) && final_id.id == chain[j].final_of_gen(g) && final_id.wf();
                                let j2 = choose|j: int|
                                    0 <= j < chain.len() && (#[trigger] chain[j]).covers_gen(
                                        g,
                                        false,
                                    );
                                assert(chain[j1].wf() && chain[j2].wf());
                                crate::session_space::lemma_chain_gen_unique(s, g, j1, j2);
                            }
                            Ok(SessionSpaceId::from_final(final_id))
                        },
                        None => Err(AllocatorError::InvalidOpSpaceId),
                    }
                }
            },
            CompressedId::Final(final_to_normalize) => {
                let ghost f = final_to_normalize.id as int;
                match self.get_local_session_space().get_cluster_by_allocated_final(
                    final_to_normalize,
                ) {
                    Some(containing_cluster) => {
                        proof {
                            let s = self.local_session();
                            let chain = s.chain();
                            let si = self.local_session_ref.index as int;
                            let j1 = choose|j: int|
                                0 <= j < chain.len() && #[trigger] chain[j] == containing_cluster
                                    && containing_cluster.covers_final(f);
                            let j2 = choose|j: int|
                                0 <= j < chain.len() && (#[trigger] chain[j]).covers_final(f);
                            assert(chain[j1].wf() && chain[j2].wf());
                            lemma_chain_cover_is_fs_cover(*self, si, j1, f);
                            lemma_chain_cover_is_fs_cover(*self, si, j2, f);
                            assert(cref_at(si, j1) == cref_at(si, j2));
                            assert(s.cluster_chain.len() == chain.len());
                            assert(j1 == j2);
                            assert(chain[j1] == chain[j2]);
                        }
                        let offset: u64 = final_to_normalize.id
                            - containing_cluster.base_final_id.id;
                        let a: u64 = containing_cluster.base_local_id.to_generation_count()
                            + offset;
                        let aligned_local = LocalId::from_generation_count(a);
                        if self.session_space_normalizer.contains(aligned_local) {
                            Ok(SessionSpaceId::from_local(aligned_local))
                        } else if a <= self.generated_id_count {
                            Ok(SessionSpaceId::from_final(final_to_normalize))
                        } else {
                            Err(AllocatorError::InvalidOpSpaceId)
                        }
                    },
                    None => {
                        if final_to_normalize.id >= self.final_id_limit.id {
                            Err(AllocatorError::InvalidOpSpaceId)
                        } else {
                            Ok(SessionSpaceId::from_final(final_to_normalize))
                        }
                    },
                }
            },
        }
    }

    /// Normalizes an op-space ID to this session's session space, given the
    /// operation sender's session identifier. An unknown sender is an error
    /// for locals; finals are globally interpretable once finalized here.
    pub fn normalize_to_session_space(&self, id: OpSpaceId, originator: SessionId) -> (r: Result<
        SessionSpaceId,
        AllocatorError,
    >)
        requires
            self.wf(),
            id.wf(),
        ensures
            !self.sessions.has_session(originator) && id.is_local_spec() ==> r == Err::<
                SessionSpaceId,
                AllocatorError,
            >(AllocatorError::NoTokenForSession),
            self.sessions.has_session(originator) ==> r == self.normalize_to_session_space_spec(
                id,
                self.sessions.index_of(originator),
            ),
            !self.sessions.has_session(originator) && !id.is_local_spec() ==> r
                == self.normalize_to_session_space_spec(id, NIL_TOKEN as int),
    {
        let token: i64 = match self.get_session_token_from_session_id(originator) {
            Ok(token) => token,
            Err(err) => {
                if id.is_local() {
                    return Err(err);
                }
                NIL_TOKEN
            },
        };
        proof {
            if self.sessions.has_session(originator) {
                let w = self.sessions.index_of(originator);
                assert(self.sessions.table()[w].session_id == originator
                    && self.sessions.valid_sref(w));
                assert(token as int == w);
            }
        }
        self.normalize_to_session_space_with_token(id, token)
    }

    /// Decompresses a session-space ID to its 128-bit stable equivalent.
    pub fn decompress(&self, id: SessionSpaceId) -> (r: Result<StableId, AllocatorError>)
        requires
            self.wf(),
            id.wf(),
            self.session_id.id + self.generated_id_count <= u128::MAX,
        ensures
            r == self.decompress_spec(id),
    {
        match id.to_space() {
            CompressedId::Final(final_id) => {
                let ghost f = final_id.id as int;
                match self.final_space.search(final_id.id, &self.sessions) {
                    Some(cref) => {
                        proof {
                            let k1 = choose|i: int|
                                0 <= i < self.final_space.refs().len()
                                    && #[trigger] self.final_space.refs()[i] == cref
                                    && self.sessions.cluster_at(cref).covers_final(f);
                            assert(self.some_fs_cluster_covers(f));
                            let k2 = choose|k: int|
                                0 <= k < self.final_space.refs().len() && self.sessions.cluster_at(
                                    #[trigger] self.final_space.refs()[k],
                                ).covers_final(f);
                            lemma_fs_cover_unique(*self, f, k1, k2);
                            assert(self.fs_cluster_covering(f) == cref);
                            assert(self.sessions.cluster_at(cref).wf());
                            let s = self.sessions.table()[cref.session_space_ref.index as int];
                            assert(s.wf() && s.index == cref.session_space_ref.index);
                            assert(s.chain()[cref.cluster_index as int].session_creator.index
                                == s.index);
                            lemma_chain_cluster_bounds(s, cref.cluster_index as int);
                        }
                        let c: IdCluster = self.sessions.deref_cluster(cref);
                        let offset: u64 = final_id.id - c.base_final_id.id;
                        let a: u64 = c.base_local_id.to_generation_count() + offset;
                        let sid: SessionId = self.sessions.get_session_id(c.session_creator);
                        let stable: StableId = StableId::from_session_id(sid).add_offset(
                            (a - 1) as u128,
                        );
                        if offset < c.count {
                            Ok(stable)
                        } else if c.session_creator.index == self.local_session_ref.index {
                            let aligned_local = LocalId::from_generation_count(a);
                            if self.session_space_normalizer.contains(aligned_local) {
                                Err(AllocatorError::InvalidSessionSpaceId)
                            } else if a > self.generated_id_count {
                                Err(AllocatorError::InvalidSessionSpaceId)
                            } else {
                                Ok(stable)
                            }
                        } else {
                            Err(AllocatorError::InvalidSessionSpaceId)
                        }
                    },
                    None => Err(AllocatorError::InvalidSessionSpaceId),
                }
            },
            CompressedId::Local(local_id) => {
                if !self.session_space_normalizer.contains(local_id) {
                    Err(AllocatorError::InvalidSessionSpaceId)
                } else {
                    proof {
                        let g = local_id.gen();
                        let i = choose|i: int|
                            0 <= i < self.session_space_normalizer.runs().len() && (
                            #[trigger] self.session_space_normalizer.runs()[i]).0.gen() <= g
                                < self.session_space_normalizer.runs()[i].0.gen()
                                + self.session_space_normalizer.runs()[i].1;
                        crate::normalizer::lemma_normalizer_run_bound(
                            self.session_space_normalizer,
                            i,
                        );
                        assert(g <= self.generated_id_count);
                    }
                    Ok(StableId::from_session_id(self.session_id).add_local(local_id))
                }
            },
        }
    }

    /// Recompresses a 128-bit stable ID to its session-space equivalent.
    pub fn recompress(&self, id: StableId) -> (r: Result<SessionSpaceId, AllocatorError>)
        requires
            self.wf(),
        ensures
            r == self.recompress_spec(id.id as int),
    {
        let ghost q = id.id as int;
        match self.uuid_space.search(id, &self.sessions) {
            None => {
                proof {
                    if exists|p: int| #[trigger] self.uuid_space.is_pred_idx(q, p) {
                        let p = choose|p: int| #[trigger] self.uuid_space.is_pred_idx(q, p);
                        assert(self.uuid_space.key(p) <= q);
                        assert(self.stable_containing_cluster(q) is None);
                    }
                    assert(self.stable_containing_cluster(q) is None);
                }
                let session_as_stable = StableId::from_session_id(self.session_id);
                if id.id >= session_as_stable.id {
                    let diff: u128 = id.id - session_as_stable.id;
                    if diff < self.generated_id_count as u128 {
                        let gen_count_equivalent: u64 = (diff as u64) + 1;
                        let local_equivalent = LocalId::from_generation_count(
                            gen_count_equivalent,
                        );
                        if self.session_space_normalizer.contains(local_equivalent) {
                            return Ok(SessionSpaceId::from_local(local_equivalent));
                        }
                    }
                }
                Err(AllocatorError::InvalidStableId)
            },
            Some((cluster, corresponding_local)) => {
                proof {
                    assert(!(forall|i: int|
                        0 <= i < self.uuid_space.entries().len() ==> #[trigger] self.uuid_space.key(
                            i,
                        ) > q));
                    let i0 = choose|i: int|
                        0 <= i < self.uuid_space.entries().len() && !(#[trigger] self.uuid_space.key(
                            i,
                        ) > q);
                    lemma_pred_exists(self.uuid_space, self.sessions, q, i0);
                    let p0 = choose|p: int| #[trigger] self.uuid_space.is_pred_idx(q, p);
                    assert(self.uuid_space.is_pred_idx(q, p0));
                    let cref = self.uuid_space.cref(p0);
                    assert(self.stable_containing_cluster(q) == Some(cref));
                    assert(cluster == self.sessions.cluster_at(cref));
                    assert(corresponding_local.gen() == q - self.sessions.cluster_sid(cref) + 1);
                    let s = self.sessions.table()[cref.session_space_ref.index as int];
                    assert(s.wf() && s.index == cref.session_space_ref.index);
                    assert(s.chain()[cref.cluster_index as int].session_creator.index == s.index);
                    assert(cluster.wf());
                    assert(corresponding_local.gen() >= cluster.base_gen());
                }
                let cluster_base_gen: u64 = cluster.base_local_id.to_generation_count();
                let g: u64 = corresponding_local.to_generation_count();
                if cluster.session_creator.index == self.local_session_ref.index {
                    if self.session_space_normalizer.contains(corresponding_local) {
                        Ok(SessionSpaceId::from_local(corresponding_local))
                    } else if g <= self.generated_id_count {
                        if g - cluster_base_gen < cluster.capacity {
                            Ok(SessionSpaceId::from_final(cluster.base_final_id.add_offset(
                                g - cluster_base_gen,
                            )))
                        } else {
                            Err(AllocatorError::InvalidStableId)
                        }
                    } else {
                        Err(AllocatorError::InvalidStableId)
                    }
                } else {
                    if g - cluster_base_gen < cluster.count {
                        Ok(SessionSpaceId::from_final(cluster.base_final_id.add_offset(
                            g - cluster_base_gen,
                        )))
                    } else {
                        Err(AllocatorError::InvalidStableId)
                    }
                }
            },
        }
    }

    /// True when the two allocators agree on all finalized state and, when
    /// `compare_local_state` is set, on all local state too. Intended for
    /// testing.
    #[verifier::rlimit(60)]
    pub fn equals_test_only(&self, other: &IdCompressor, compare_local_state: bool) -> (r: bool)
        requires
            forall|i: int|
                0 <= i < self.final_space.refs().len() ==> self.sessions.valid_cref(
                    #[trigger] self.final_space.refs()[i],
                ),
            forall|i: int|
                0 <= i < other.final_space.refs().len() ==> other.sessions.valid_cref(
                    #[trigger] other.final_space.refs()[i],
                ),
            forall|i: int|
                0 <= i < self.uuid_space.entries().len() ==> self.sessions.valid_cref(
                    #[trigger] self.uuid_space.cref(i),
                ),
            forall|i: int|
                0 <= i < other.uuid_space.entries().len() ==> other.sessions.valid_cref(
                    #[trigger] other.uuid_space.cref(i),
                ),
        ensures
            r == (finalized_eq(*self, *other) && (compare_local_state ==> locally_eq(
                *self,
                *other,
            ))),
    {
        if !(self.final_id_limit.id == other.final_id_limit.id && self.cluster_capacity
            == other.cluster_capacity && self.final_space.equals_test_only(
            &other.final_space,
            &self.sessions,
            &other.sessions,
        ) && self.uuid_space.equals_test_only(
            &other.uuid_space,
            &self.sessions,
            &other.sessions,
        )) {
            false
        } else if compare_local_state {
            self.session_id.id == other.session_id.id && self.generated_id_count
                == other.generated_id_count && self.next_range_base_generation_count
                == other.next_range_base_generation_count && self.session_space_normalizer.eq(
                &other.session_space_normalizer,
            )
        } else {
            true
        }
    }

    /// The machine bounds `finalize_range` needs of a present, non-empty
    /// range: the allocated extents stay within the signed encodings and the
    /// probed stable range stays within 128 bits.
    pub open spec fn finalize_bounds_ok(self, sid: SessionId, range: Option<(u64, u64)>) -> bool {
        match range {
            None => true,
            Some((b, c)) => c == 0 || {
                &&& 1 <= b
                &&& b + c + self.cluster_capacity <= i64::MAX
                &&& self.fs_end() + c + self.cluster_capacity <= i64::MAX
                &&& sid.id + (b - 1) + c + self.cluster_capacity <= u128::MAX
            },
        }
    }

    /// Recomputes the cached final-ID limit from the final space's tail.
    fn update_final_id_limit(&mut self)
        requires
            old(self).inv_structural(),
            old(self).final_space.refs().len() > 0,
        ensures
            final(self).inv_structural(),
            final(self).wf(),
            *final(self) == (IdCompressor { final_id_limit: final(self).final_id_limit, ..*old(self) }),
    {
        let limit: FinalId = match self.final_space.get_tail_cluster_ref() {
            Some(cr) => {
                let c = self.sessions.deref_cluster(cr);
                proof {
                    assert(self.sessions.cluster_at(cr).wf());
                }
                c.base_final_id.add_offset(c.count)
            },
            None => {
                proof {
                    assert(false);
                }
                FinalId { id: 0 }
            },
        };
        self.final_id_limit = limit;
        proof {
            assert((IdCompressor { final_id_limit: old(self).final_id_limit, ..*self }) == *old(
                self,
            ));
            lemma_wf_frame(*old(self), *self);
        }
    }

    /// The empty-chain arm of `finalize_range`, entered after the collision
    /// probe passed and the session was found or created with no clusters:
    /// the range must start at generation count 1 and gains the session's
    /// first cluster.
    #[verifier::rlimit(100)]
    fn finalize_on_empty_chain(
        &mut self,
        session_space_ref: SessionSpaceRef,
        session_id: SessionId,
        range_base_gen: u64,
        range_len: u64,
        Ghost(pre): Ghost<IdCompressor>,
    ) -> (r: Result<(), AllocatorError>)
        requires
            pre.wf(),
            old(self).inv_structural(),
            old(self).limit_ok(),
            finalize_noop_new_session(pre, *old(self), session_id),
            session_space_ref.index as int == pre.session_index_for(session_id),
            old(self).sessions.valid_sref(session_space_ref.index as int),
            old(self).sessions.table()[session_space_ref.index as int].session_id == session_id,
            old(self).sessions.table()[session_space_ref.index as int].chain().len() == 0,
            pre.session_chain(session_id).len() == 0,
            1 <= range_len,
            pre.finalize_bounds_ok(session_id, Some((range_base_gen, range_len))),
            !pre.collision_check(
                session_id,
                session_id.id + range_base_gen - 1,
                session_id.id + range_base_gen - 1 + range_len + pre.cluster_capacity,
            ),
            pre.telemetry_stats.cluster_creation_count < u64::MAX,
        ensures
            final(self).wf(),
            range_base_gen != 1 ==> r == Err::<(), AllocatorError>(
                AllocatorError::RangeFinalizedOutOfOrder,
            ) && finalize_noop_new_session(pre, *final(self), session_id),
            range_base_gen == 1 ==> r == Ok::<(), AllocatorError>(()) && finalize_start_chain(
                pre,
                *final(self),
                session_id,
                range_len,
            ),
    {
        let ghost si = session_space_ref.index as int;
        let ghost base = session_id.id + range_base_gen - 1;
        let ghost max = base + range_len + pre.cluster_capacity;
        if range_base_gen != 1 {
            return Err(AllocatorError::RangeFinalizedOutOfOrder);
        }
        let range_base_local = LocalId::from_generation_count(range_base_gen);
        self.telemetry_stats.cluster_creation_count = self.telemetry_stats.cluster_creation_count
            + 1;
        let ghost g1 = *self;
        proof {
            lemma_wf_frame(*old(self), g1);
            assert(g1.fs_end() == pre.fs_end()) by {
                if pre.final_space.refs().len() > 0 {
                    assert(g1.sessions.cluster_at(g1.final_space.refs().last())
                        == pre.sessions.cluster_at(pre.final_space.refs().last()));
                }
            }
            assert(!g1.collision_check(session_id, base, max)) by {
                if g1.collision_check(session_id, base, max) {
                    let p = choose|p: int|
                        #[trigger] g1.uuid_space.is_pred_idx(max, p) && g1.sessions.cluster_sid(
                            g1.uuid_space.cref(p),
                        ) != session_id.id && base <= g1.sessions.cluster_max_stable(
                            g1.uuid_space.cref(p),
                        );
                    let x = g1.uuid_space.cref(p);
                    assert(pre.uuid_space.is_pred_idx(max, p));
                    assert(pre.uuid_space.cref(p) == x);
                    assert(pre.sessions.valid_cref(x));
                    assert(pre.sessions.table()[x.session_space_ref.index as int]
                        == g1.sessions.table()[x.session_space_ref.index as int]);
                    assert(pre.collision_check(session_id, base, max));
                }
            }
            lemma_no_foreign_overlap(g1, session_id, si, range_base_gen as int, base, max);
            assert(g1.sessions.table()[si].end_gen() == 1);
        }
        let cap_new: u64 = self.cluster_capacity + range_len;
        let new_ref = self.add_empty_cluster(session_space_ref, range_base_local, cap_new);
        let ghost g2 = *self;
        self.sessions.set_cluster_count(new_ref, range_len);
        proof {
            let newc0 = g2.sessions.cluster_at(new_ref);
            lemma_inv_count_update(g2, *self, new_ref, IdCluster { count: range_len, ..newc0 });
            assert(self.final_space.refs().len() > 0);
        }
        self.update_final_id_limit();
        proof {
            let newc = IdCluster {
                session_creator: SessionSpaceRef { index: si as usize },
                base_local_id: LocalId { id: -1i64 },
                base_final_id: FinalId { id: pre.fs_end() as u64 },
                capacity: (pre.cluster_capacity + range_len) as u64,
                count: range_len,
            };
            assert(new_ref == cref_at(si, 0));
            assert(self.sessions.table()[si].chain() =~= pre.session_chain(session_id).push(newc));
            assert(table_updated(pre, *self, session_id, si, pre.session_chain(session_id).push(newc)));
            assert(self.final_space.refs() == pre.final_space.refs().push(cref_at(si, 0)));
            assert(uuid_inserted(
                pre.uuid_space,
                self.uuid_space,
                session_id.id as int,
                cref_at(si, 0),
            ));
            assert(self.final_id_limit.id == pre.fs_end() + range_len) by {
                assert(self.final_space.refs().last() == new_ref);
                assert(self.sessions.cluster_at(new_ref).base_final_id.id == pre.fs_end());
                assert(self.sessions.cluster_at(new_ref).count == range_len);
            }
            assert(finalize_start_chain(pre, *self, session_id, range_len));
        }
        Ok(())
    }

    /// The non-empty-chain arm of `finalize_range`, entered after the
    /// collision probe passed: the range must continue the chain's finalized
    /// extent, and is placed in the tail's remaining capacity, by expanding
    /// the tail in place, or in a successor cluster.
    #[verifier::rlimit(100)]
    fn finalize_on_tail(
        &mut self,
        session_space_ref: SessionSpaceRef,
        session_id: SessionId,
        range_base_gen: u64,
        range_len: u64,
    ) -> (r: Result<(), AllocatorError>)
        requires
            old(self).wf(),
            old(self).sessions.has_session(session_id),
            session_space_ref.index as int == old(self).sessions.index_of(session_id),
            old(self).sessions.valid_sref(session_space_ref.index as int),
            old(self).sessions.table()[session_space_ref.index as int].session_id == session_id,
            old(self).session_chain(session_id).len() > 0,
            1 <= range_len,
            range_base_gen >= 1,
            old(self).finalize_bounds_ok(session_id, Some((range_base_gen, range_len))),
            !old(self).collision_check(
                session_id,
                session_id.id + range_base_gen - 1,
                session_id.id + range_base_gen - 1 + range_len + old(self).cluster_capacity,
            ),
            old(self).telemetry_stats.cluster_creation_count < u64::MAX,
            old(self).telemetry_stats.expansion_count < u64::MAX,
        ensures
            final(self).wf(),
            ({
                let chain = old(self).session_chain(session_id);
                let tail = chain.last();
                if range_base_gen != tail.end_gen_finalized() {
                    r == Err::<(), AllocatorError>(AllocatorError::RangeFinalizedOutOfOrder)
                        && *final(self) == *old(self)
                } else if tail.capacity - tail.count >= range_len {
                    r == Ok::<(), AllocatorError>(()) && finalize_fits(
                        *old(self),
                        *final(self),
                        session_id,
                        range_len,
                    )
                } else if old(self).tail_is_global_last(tail) {
                    r == Ok::<(), AllocatorError>(()) && finalize_expand(
                        *old(self),
                        *final(self),
                        session_id,
                        range_len,
                    )
                } else {
                    r == Ok::<(), AllocatorError>(()) && finalize_fill_and_new(
                        *old(self),
                        *final(self),
                        session_id,
                        range_len,
                    )
                }
            }),
    {
        let ghost pre = *old(self);
        let ghost si = session_space_ref.index as int;
        let ghost base = session_id.id + range_base_gen - 1;
        let ghost max = base + range_len + pre.cluster_capacity;
        let ghost chain0 = pre.session_chain(session_id);
        let ghost ci = chain0.len() - 1;
        proof {
            assert(pre.sessions.index_of(session_id) == si);
            assert(chain0 == pre.sessions.table()[si].chain());
        }
        let range_base_local = LocalId::from_generation_count(range_base_gen);
        let tail: IdCluster = match self.sessions.deref_session_space(
            session_space_ref,
        ).get_tail_cluster() {
            Some(t) => t,
            None => {
                proof {
                    assert(false);
                }
                IdCluster {
                    session_creator: session_space_ref,
                    base_local_id: LocalId { id: -1 },
                    base_final_id: FinalId { id: 0 },
                    capacity: 1,
                    count: 0,
                }
            },
        };
        let chain_len: usize = self.sessions.deref_session_space(
            session_space_ref,
        ).cluster_chain.len();
        let tail_ref = ClusterRef { session_space_ref, cluster_index: chain_len - 1 };
        proof {
            assert(pre.sessions.valid_cref(tail_ref));
            assert(pre.sessions.cluster_at(tail_ref) == tail);
            assert(pre.sessions.table()[si].wf());
            assert(tail.wf());
        }
        let base_gen_tail: u64 = tail.base_local_id.to_generation_count();
        let expected: u64 = base_gen_tail + tail.count;
        if expected != range_base_gen {
            return Err(AllocatorError::RangeFinalizedOutOfOrder);
        }
        proof {
            assert forall|j: int|
                0 <= j < pre.sessions.table()[si].chain().len() implies (
            #[trigger] pre.sessions.table()[si].chain()[j]).base_gen() <= range_base_gen by {
                if j < ci {
                    lemma_chain_disjoint(pre.sessions.table()[si], j, ci);
                    assert(pre.sessions.table()[si].chain()[j].wf());
                }
            }
        }
        let remaining: u64 = tail.capacity - tail.count;
        if remaining >= range_len {
            self.sessions.set_cluster_count(tail_ref, tail.count + range_len);
            proof {
                lemma_inv_count_update(
                    pre,
                    *self,
                    tail_ref,
                    IdCluster { count: (tail.count + range_len) as u64, ..tail },
                );
                lemma_valid_cref_indexed(pre, tail_ref);
                assert(self.final_space.refs().len() > 0);
            }
            self.update_final_id_limit();
            proof {
                assert(finalize_fits(pre, *self, session_id, range_len));
            }
            return Ok(());
        }
        let last_base_final: FinalId = match self.final_space.get_tail_cluster_ref() {
            Some(cr) => {
                proof {
                    lemma_valid_cref_indexed(pre, tail_ref);
                }
                self.sessions.deref_cluster(cr).base_final_id
            },
            None => {
                proof {
                    lemma_valid_cref_indexed(pre, tail_ref);
                    assert(false);
                }
                FinalId { id: 0 }
            },
        };
        if tail.base_final_id.id == last_base_final.id {
            proof {
                assert(pre.tail_is_global_last(tail));
            }
            self.finalize_expand_tail(session_space_ref, session_id, range_base_gen, range_len)
        } else {
            proof {
                assert(!pre.tail_is_global_last(tail));
            }
            self.finalize_fill_overflow(session_space_ref, session_id, range_base_gen, range_len)
        }
    }

    /// The state after the fill half of the successor arm: the tail filled
    /// to capacity and an empty successor cluster `r` created after it.
    pub open spec fn fill_prepared(
        pre: IdCompressor,
        mid: IdCompressor,
        session_id: SessionId,
        range_len: u64,
        r: ClusterRef,
    ) -> bool {
        let si = pre.sessions.index_of(session_id);
        let chain0 = pre.session_chain(session_id);
        let tail = chain0.last();
        let remaining = tail.capacity - tail.count;
        let claimed = range_len - remaining + pre.cluster_capacity;
        let tail2 = IdCluster { count: tail.capacity, ..tail };
        let newc0 = IdCluster {
            session_creator: SessionSpaceRef { index: si as usize },
            base_local_id: LocalId { id: (tail.base_local_id.id - tail.capacity) as i64 },
            base_final_id: FinalId { id: pre.fs_end() as u64 },
            capacity: claimed as u64,
            count: 0,
        };
        &&& finalize_frame(pre, mid)
        &&& r == cref_at(si, chain0.len() as int)
        &&& mid.sessions.valid_cref(r)
        &&& mid.sessions.cluster_at(r) == newc0
        &&& table_updated(pre, mid, session_id, si, chain0.update(chain0.len() - 1, tail2).push(newc0))
        &&& mid.final_space.refs() == pre.final_space.refs().push(cref_at(si, chain0.len() as int))
        &&& uuid_inserted(
            pre.uuid_space,
            mid.uuid_space,
            session_id.id + tail.base_gen() + tail.capacity - 1,
            cref_at(si, chain0.len() as int),
        )
        &&& mid.final_id_limit == pre.final_id_limit
        &&& mid.telemetry_stats == (TelemetryStats {
            cluster_creation_count: (pre.telemetry_stats.cluster_creation_count + 1) as u64,
            ..pre.telemetry_stats
        })
        &&& mid.final_space.refs().len() > 0
    }

    /// The requirements shared by the two overflow arms: the range continues
    /// the tail's finalized extent and exceeds its remaining capacity, and
    /// the collision probe passed.
    pub open spec fn overflow_arm_pre(
        self,
        session_space_ref: SessionSpaceRef,
        session_id: SessionId,
        range_base_gen: u64,
        range_len: u64,
    ) -> bool {
        &&& self.wf()
        &&& self.sessions.has_session(session_id)
        &&& session_space_ref.index as int == self.sessions.index_of(session_id)
        &&& self.sessions.valid_sref(session_space_ref.index as int)
        &&& self.sessions.table()[session_space_ref.index as int].session_id == session_id
        &&& self.session_chain(session_id).len() > 0
        &&& 1 <= range_len
        &&& range_base_gen >= 1
        &&& range_base_gen == self.session_chain(session_id).last().end_gen_finalized()
        &&& self.session_chain(session_id).last().capacity - self.session_chain(
            session_id,
        ).last().count < range_len
        &&& self.finalize_bounds_ok(session_id, Some((range_base_gen, range_len)))
        &&& !self.collision_check(
            session_id,
            session_id.id + range_base_gen - 1,
            session_id.id + range_base_gen - 1 + range_len + self.cluster_capacity,
        )
    }

    /// The in-place expansion arm: the session tail is the global last
    /// cluster, so it grows by the overflow plus the cluster sizing.
    #[verifier::rlimit(100)]
    fn finalize_expand_tail(
        &mut self,
        session_space_ref: SessionSpaceRef,
        session_id: SessionId,
        range_base_gen: u64,
        range_len: u64,
    ) -> (r: Result<(), AllocatorError>)
        requires
            old(self).overflow_arm_pre(session_space_ref, session_id, range_base_gen, range_len),
            old(self).tail_is_global_last(old(self).session_chain(session_id).last()),
            old(self).telemetry_stats.expansion_count < u64::MAX,
        ensures
            final(self).wf(),
            r == Ok::<(), AllocatorError>(()),
            finalize_expand(*old(self), *final(self), session_id, range_len),
    {
        let ghost pre = *old(self);
        let ghost si = session_space_ref.index as int;
        let ghost base = session_id.id + range_base_gen - 1;
        let ghost max = base + range_len + pre.cluster_capacity;
        let ghost chain0 = pre.session_chain(session_id);
        let ghost ci = chain0.len() - 1;
        let tail: IdCluster = match self.sessions.deref_session_space(
            session_space_ref,
        ).get_tail_cluster() {
            Some(t) => t,
            None => {
                proof {
                    assert(false);
                }
                IdCluster {
                    session_creator: session_space_ref,
                    base_local_id: LocalId { id: -1 },
                    base_final_id: FinalId { id: 0 },
                    capacity: 1,
                    count: 0,
                }
            },
        };
        let chain_len: usize = self.sessions.deref_session_space(
            session_space_ref,
        ).cluster_chain.len();
        let tail_ref = ClusterRef { session_space_ref, cluster_index: chain_len - 1 };
        proof {
            assert(pre.sessions.valid_cref(tail_ref));
            assert(pre.sessions.cluster_at(tail_ref) == tail);
            assert(pre.sessions.table()[si].wf());
            assert(tail.wf());
            assert forall|j: int|
                0 <= j < pre.sessions.table()[si].chain().len() implies (
            #[trigger] pre.sessions.table()[si].chain()[j]).base_gen() <= range_base_gen by {
                if j < ci {
                    lemma_chain_disjoint(pre.sessions.table()[si], j, ci);
                    assert(pre.sessions.table()[si].chain()[j].wf());
                }
            }
            lemma_no_foreign_overlap(pre, session_id, si, range_base_gen as int, base, max);
        }
        let remaining: u64 = tail.capacity - tail.count;
        let overflow: u64 = range_len - remaining;
        let new_claimed: u64 = overflow + self.cluster_capacity;
        self.telemetry_stats.expansion_count = self.telemetry_stats.expansion_count + 1;
        let ghost g1 = *self;
        proof {
            lemma_wf_frame(pre, g1);
            lemma_valid_cref_indexed(g1, tail_ref);
            lemma_same_base_final(g1, tail_ref, g1.final_space.refs().last());
            assert(g1.final_space.refs().last() == tail_ref);
            assert(pre.fs_end() == tail.base_final_id.id + tail.capacity);
        }
        let new_capacity: u64 = tail.capacity + new_claimed;
        proof {
            assert(g1.sessions.cluster_base_stable(tail_ref) == base - tail.count);
            assert(g1.sessions.cluster_base_stable(tail_ref) + new_capacity == max);
            assert forall|x: ClusterRef|
                g1.sessions.valid_cref(x) && x.session_space_ref != tail_ref.session_space_ref
                    implies #[trigger] g1.sessions.cluster_max_stable(x)
                < g1.sessions.cluster_base_stable(tail_ref) || g1.sessions.cluster_base_stable(x)
                > g1.sessions.cluster_base_stable(tail_ref) + new_capacity by {
                assert(g1.sessions.cluster_max_stable(x) < base
                    || g1.sessions.cluster_base_stable(x) > max);
                if g1.sessions.cluster_max_stable(x) < base {
                    assert(g1.sessions.cluster_max_stable(x) < g1.sessions.cluster_base_stable(
                        tail_ref,
                    ) || g1.sessions.cluster_max_stable(tail_ref)
                        < g1.sessions.cluster_base_stable(x));
                    assert(g1.sessions.cluster_max_stable(tail_ref) == base - tail.count
                        + tail.capacity);
                }
            }
        }
        self.sessions.expand_cluster(tail_ref, new_capacity, tail.count + range_len);
        proof {
            lemma_inv_expand(
                g1,
                *self,
                tail_ref,
                IdCluster {
                    capacity: new_capacity,
                    count: (tail.count + range_len) as u64,
                    ..tail
                },
            );
            lemma_valid_cref_indexed(pre, tail_ref);
            assert(self.final_space.refs().len() > 0);
        }
        self.update_final_id_limit();
        proof {
            assert(finalize_expand(pre, *self, session_id, range_len));
        }
        Ok(())
    }

    /// The fill half of the successor arm: the tail's finalized count rises
    /// to its capacity and an empty successor cluster is created after it.
    #[verifier::rlimit(100)]
    #[verifier::spinoff_prover]
    fn fill_overflow_prepare(
        &mut self,
        session_space_ref: SessionSpaceRef,
        session_id: SessionId,
        range_base_gen: u64,
        range_len: u64,
    ) -> (r: ClusterRef)
        requires
            old(self).overflow_arm_pre(session_space_ref, session_id, range_base_gen, range_len),
            !old(self).tail_is_global_last(old(self).session_chain(session_id).last()),
            old(self).telemetry_stats.cluster_creation_count < u64::MAX,
        ensures
            final(self).inv_structural(),
            Self::fill_prepared(*old(self), *final(self), session_id, range_len, r),
    {
        let ghost pre = *old(self);
        let ghost si = session_space_ref.index as int;
        let ghost base = session_id.id + range_base_gen - 1;
        let ghost max = base + range_len + pre.cluster_capacity;
        let ghost chain0 = pre.session_chain(session_id);
        let ghost ci = chain0.len() - 1;
        let tail: IdCluster = match self.sessions.deref_session_space(
            session_space_ref,
        ).get_tail_cluster() {
            Some(t) => t,
            None => {
                proof {
                    assert(false);
                }
                IdCluster {
                    session_creator: session_space_ref,
                    base_local_id: LocalId { id: -1 },
                    base_final_id: FinalId { id: 0 },
                    capacity: 1,
                    count: 0,
                }
            },
        };
        let chain_len: usize = self.sessions.deref_session_space(
            session_space_ref,
        ).cluster_chain.len();
        let tail_ref = ClusterRef { session_space_ref, cluster_index: chain_len - 1 };
        proof {
            assert(pre.sessions.valid_cref(tail_ref));
            assert(pre.sessions.cluster_at(tail_ref) == tail);
            assert(pre.sessions.table()[si].wf());
            assert(tail.wf());
            assert forall|j: int|
                0 <= j < pre.sessions.table()[si].chain().len() implies (
            #[trigger] pre.sessions.table()[si].chain()[j]).base_gen() <= range_base_gen by {
                if j < ci {
                    lemma_chain_disjoint(pre.sessions.table()[si], j, ci);
                    assert(pre.sessions.table()[si].chain()[j].wf());
                }
            }
            lemma_no_foreign_overlap(pre, session_id, si, range_base_gen as int, base, max);
        }
        let range_base_local = LocalId::from_generation_count(range_base_gen);
        let remaining: u64 = tail.capacity - tail.count;
        let overflow: u64 = range_len - remaining;
        let new_claimed: u64 = overflow + self.cluster_capacity;
        self.telemetry_stats.cluster_creation_count = self.telemetry_stats.cluster_creation_count
            + 1;
        self.sessions.set_cluster_count(tail_ref, tail.capacity);
        let ghost g1 = *self;
        proof {
            lemma_wf_frame(pre, IdCompressor { telemetry_stats: g1.telemetry_stats, ..pre });
            lemma_inv_count_update(
                IdCompressor { telemetry_stats: g1.telemetry_stats, ..pre },
                g1,
                tail_ref,
                IdCluster { count: tail.capacity, ..tail },
            );
            assert(g1.inv_structural());
            assert(g1.fs_end() == pre.fs_end()) by {
                lemma_valid_cref_indexed(pre, tail_ref);
                assert(pre.final_space.refs().len() > 0);
                assert(g1.sessions.cluster_at(g1.final_space.refs().last()).base_final_id
                    == pre.sessions.cluster_at(pre.final_space.refs().last()).base_final_id);
                assert(g1.sessions.cluster_at(g1.final_space.refs().last()).capacity
                    == pre.sessions.cluster_at(pre.final_space.refs().last()).capacity);
            }
            assert(g1.sessions.table()[si].end_gen() == tail.base_gen() + tail.capacity);
            assert forall|x: ClusterRef|
                g1.sessions.valid_cref(x) && x.session_space_ref != session_space_ref
                    implies #[trigger] g1.sessions.cluster_max_stable(x)
                < g1.sessions.table()[si].session_id.id + (range_base_gen + remaining) - 1
                || g1.sessions.cluster_base_stable(x) > g1.sessions.table()[si].session_id.id + (
            range_base_gen + remaining) - 1 + new_claimed by {
                assert(pre.sessions.valid_cref(x));
                assert(g1.sessions.cluster_max_stable(x) == pre.sessions.cluster_max_stable(x));
                assert(g1.sessions.cluster_base_stable(x) == pre.sessions.cluster_base_stable(x));
                assert(pre.sessions.cluster_max_stable(x) < base
                    || pre.sessions.cluster_base_stable(x) > max);
            }
        }
        let new_base_local = range_base_local.sub_offset(remaining);
        let new_ref = self.add_empty_cluster(session_space_ref, new_base_local, new_claimed);
        proof {
            assert(new_ref == cref_at(si, chain0.len() as int));
            assert(self.sessions.table()[si].chain() =~= chain0.update(
                ci,
                IdCluster { count: tail.capacity, ..tail },
            ).push(self.sessions.cluster_at(new_ref)));
        }
        new_ref
    }

    /// Glues the prepared state and the final count-and-limit step into the
    /// successor arm's full description.
    proof fn lemma_fill_final_glue(
        pre: IdCompressor,
        mid: IdCompressor,
        post: IdCompressor,
        session_id: SessionId,
        range_len: u64,
        overflow: u64,
        new_ref: ClusterRef,
    )
        requires
            pre.session_chain(session_id).len() > 0,
            pre.session_chain(session_id).last().wf(),
            pre.session_chain(session_id).last().capacity - pre.session_chain(
                session_id,
            ).last().count < range_len,
            overflow == range_len - (pre.session_chain(session_id).last().capacity
                - pre.session_chain(session_id).last().count),
            range_len + pre.cluster_capacity <= i64::MAX,
            pre.session_chain(session_id).len() <= usize::MAX,
            Self::fill_prepared(pre, mid, session_id, range_len, new_ref),
            post.sessions.table().len() == mid.sessions.table().len(),
            forall|k: int|
                0 <= k < mid.sessions.table().len() && k != new_ref.session_space_ref.index
                    ==> post.sessions.table()[k] == (#[trigger] mid.sessions.table()[k]),
            post.sessions.table()[new_ref.session_space_ref.index as int].session_id
                == mid.sessions.table()[new_ref.session_space_ref.index as int].session_id,
            post.sessions.table()[new_ref.session_space_ref.index as int].index
                == mid.sessions.table()[new_ref.session_space_ref.index as int].index,
            post.sessions.table()[new_ref.session_space_ref.index as int].chain()
                == mid.sessions.table()[new_ref.session_space_ref.index as int].chain().update(
                new_ref.cluster_index as int,
                IdCluster { count: overflow, ..mid.sessions.cluster_at(new_ref) },
            ),
            post.final_space == mid.final_space,
            post.uuid_space == mid.uuid_space,
            post.session_id == mid.session_id,
            post.local_session_ref == mid.local_session_ref,
            post.generated_id_count == mid.generated_id_count,
            post.next_range_base_generation_count == mid.next_range_base_generation_count,
            post.cluster_capacity == mid.cluster_capacity,
            post.session_space_normalizer == mid.session_space_normalizer,
            post.telemetry_stats == mid.telemetry_stats,
            post.limit_ok(),
        ensures
            finalize_fill_and_new(pre, post, session_id, range_len),
    {
        let si = pre.sessions.index_of(session_id);
        let chain0 = pre.session_chain(session_id);
        let ci = chain0.len() - 1;
        let tail = chain0.last();
        let tail2 = IdCluster { count: tail.capacity, ..tail };
        let newc = IdCluster {
            session_creator: SessionSpaceRef { index: si as usize },
            base_local_id: LocalId { id: (tail.base_local_id.id - tail.capacity) as i64 },
            base_final_id: FinalId { id: pre.fs_end() as u64 },
            capacity: (range_len - (tail.capacity - tail.count) + pre.cluster_capacity) as u64,
            count: overflow,
        };
        let newc0 = IdCluster { count: 0, ..newc };
        assert(new_ref == cref_at(si, chain0.len() as int));
        assert(new_ref.session_space_ref.index as int == si);
        assert(new_ref.cluster_index as int == chain0.len() as int);
        assert(mid.sessions.cluster_at(new_ref) == newc0);
        assert(mid.sessions.table()[si].chain() == chain0.update(ci, tail2).push(newc0));
        assert(post.sessions.table()[si].chain() == mid.sessions.table()[si].chain().update(
            chain0.len() as int,
            IdCluster { count: overflow, ..newc0 },
        ));
        assert((IdCluster { count: overflow, ..newc0 }) == newc);
        assert(post.sessions.table()[si].chain() =~= chain0.update(ci, tail2).push(newc));
        assert(table_updated(pre, post, session_id, si, chain0.update(ci, tail2).push(newc)));
        assert(uuid_inserted(
            pre.uuid_space,
            post.uuid_space,
            session_id.id + tail.base_gen() + tail.capacity - 1,
            cref_at(si, chain0.len() as int),
        ));
        assert(finalize_fill_and_new(pre, post, session_id, range_len));
    }

    /// The finish half of the successor arm: the created cluster's finalized
    /// count becomes the overflow, and the cached limit follows.
    #[verifier::rlimit(100)]
    fn fill_overflow_finish(
        &mut self,
        new_ref: ClusterRef,
        session_id: SessionId,
        overflow: u64,
        range_len: u64,
        Ghost(pre): Ghost<IdCompressor>,
    ) -> (r: ())
        requires
            pre.session_chain(session_id).len() > 0,
            pre.session_chain(session_id).len() <= usize::MAX,
            pre.session_chain(session_id).last().wf(),
            old(self).inv_structural(),
            Self::fill_prepared(pre, *old(self), session_id, range_len, new_ref),
            overflow == range_len - (pre.session_chain(session_id).last().capacity
                - pre.session_chain(session_id).last().count),
            pre.session_chain(session_id).last().capacity - pre.session_chain(
                session_id,
            ).last().count < range_len,
            range_len + pre.cluster_capacity <= i64::MAX,
        ensures
            final(self).wf(),
            finalize_fill_and_new(pre, *final(self), session_id, range_len),
    {
        let ghost si = pre.sessions.index_of(session_id);
        let ghost chain0 = pre.session_chain(session_id);
        let ghost ci = chain0.len() - 1;
        let ghost tail = chain0.last();
        let ghost g2 = *self;
        proof {
            assert(g2.sessions.cluster_at(new_ref).capacity == range_len - (tail.capacity
                - tail.count) + pre.cluster_capacity);
            assert(overflow <= g2.sessions.cluster_at(new_ref).capacity);
        }
        self.sessions.set_cluster_count(new_ref, overflow);
        proof {
            let newc0 = g2.sessions.cluster_at(new_ref);
            lemma_inv_count_update(g2, *self, new_ref, IdCluster { count: overflow, ..newc0 });
            assert(self.final_space.refs().len() > 0);
        }
        self.update_final_id_limit();
        proof {
            Self::lemma_fill_final_glue(pre, g2, *self, session_id, range_len, overflow, new_ref);
        }
    }

    /// The successor arm: the session tail is not the global last cluster, so
    /// it fills, and a new cluster holds the overflow.
    #[verifier::rlimit(100)]
    fn finalize_fill_overflow(
        &mut self,
        session_space_ref: SessionSpaceRef,
        session_id: SessionId,
        range_base_gen: u64,
        range_len: u64,
    ) -> (r: Result<(), AllocatorError>)
        requires
            old(self).overflow_arm_pre(session_space_ref, session_id, range_base_gen, range_len),
            !old(self).tail_is_global_last(old(self).session_chain(session_id).last()),
            old(self).telemetry_stats.cluster_creation_count < u64::MAX,
        ensures
            final(self).wf(),
            r == Ok::<(), AllocatorError>(()),
            finalize_fill_and_new(*old(self), *final(self), session_id, range_len),
    {
        let ghost pre = *old(self);
        let ghost si = session_space_ref.index as int;
        let ghost chain0 = pre.session_chain(session_id);
        let ghost tail = chain0.last();
        let tail_now: IdCluster = match self.sessions.deref_session_space(
            session_space_ref,
        ).get_tail_cluster() {
            Some(t) => t,
            None => {
                proof {
                    assert(false);
                }
                IdCluster {
                    session_creator: session_space_ref,
                    base_local_id: LocalId { id: -1 },
                    base_final_id: FinalId { id: 0 },
                    capacity: 1,
                    count: 0,
                }
            },
        };
        proof {
            assert(tail_now == tail);
            assert(pre.sessions.table()[si].wf());
            assert(tail.wf());
        }
        let chain_len: usize = self.sessions.deref_session_space(
            session_space_ref,
        ).cluster_chain.len();
        proof {
            assert(chain0.len() == chain_len);
        }
        let overflow: u64 = range_len - (tail_now.capacity - tail_now.count);
        let new_ref = self.fill_overflow_prepare(
            session_space_ref,
            session_id,
            range_base_gen,
            range_len,
        );
        self.fill_overflow_finish(new_ref, session_id, overflow, range_len, Ghost(pre));
        Ok(())
    }

    /// Finalizes a range of IDs, from this or any other session. Callers must
    /// deliver `finalize_range` calls in total-order-broadcast order across
    /// all sessions, and within one session in the order the ranges were
    /// taken; violations surface as `RangeFinalizedOutOfOrder` or
    /// `ClusterCollision` and are fatal for the session involved.
    pub fn finalize_range(&mut self, range: &IdRange) -> (r: Result<(), AllocatorError>)
        requires
            old(self).wf(),
            old(self).finalize_bounds_ok(range.id, range.range),
            old(self).sessions.table().len() < i64::MAX,
            old(self).telemetry_stats.cluster_creation_count < u64::MAX,
            old(self).telemetry_stats.expansion_count < u64::MAX,
        ensures
            final(self).wf(),
            finalize_step(*old(self), *final(self), range.id, range.range, r),
    {
        let ghost pre = *self;
        let session_id = range.id;
        let (range_base_gen, range_len): (u64, u64) = match range.range {
            None => {
                return Ok(());
            },
            Some((b, c)) => {
                if c == 0 {
                    return Err(AllocatorError::MalformedIdRange);
                }
                (b, c)
            },
        };
        let range_base_local = LocalId::from_generation_count(range_base_gen);
        let range_base_stable = StableId::from_session_id(session_id).add_local(range_base_local);
        let range_max_stable = range_base_stable.add_offset(range_len as u128).add_offset(
            self.cluster_capacity as u128,
        );
        let ghost base = session_id.id + range_base_gen - 1;
        let ghost max = base + range_len + pre.cluster_capacity;
        assert(range_base_stable.id == base && range_max_stable.id == max);
        let collides = self.uuid_space.range_collides(
            session_id,
            &self.sessions,
            range_base_stable,
            range_max_stable,
        );
        proof {
            if collides {
                assert(!(forall|i: int|
                    0 <= i < self.uuid_space.entries().len() ==> #[trigger] self.uuid_space.key(i)
                        > max));
                let i = choose|i: int|
                    0 <= i < self.uuid_space.entries().len() && !(#[trigger] self.uuid_space.key(i)
                        > max);
                lemma_pred_exists(self.uuid_space, self.sessions, max, i);
                let p = choose|p: int| #[trigger] self.uuid_space.is_pred_idx(max, p);
                assert(pre.collision_check(session_id, base, max));
            } else {
                if pre.collision_check(session_id, base, max) {
                    let p = choose|p: int|
                        #[trigger] pre.uuid_space.is_pred_idx(max, p) && pre.sessions.cluster_sid(
                            pre.uuid_space.cref(p),
                        ) != session_id.id && base <= pre.sessions.cluster_max_stable(
                            pre.uuid_space.cref(p),
                        );
                    assert(false);
                }
            }
        }
        if collides {
            return Err(AllocatorError::ClusterCollision);
        }
        let session_space_ref = self.sessions.get_or_create(session_id);
        let ghost si = session_space_ref.index as int;
        proof {
            if pre.sessions.has_session(session_id) {
                assert(*self == pre);
                let w = pre.sessions.index_of(session_id);
                assert(pre.sessions.valid_sref(w) && pre.sessions.table()[w].session_id
                    == session_id);
                assert(w == si);
                assert(si == pre.session_index_for(session_id));
                assert(pre.session_chain(session_id) == self.sessions.table()[si].chain());
            } else {
                assert(si == pre.sessions.table().len());
                assert(si == pre.session_index_for(session_id));
                assert(pre.session_chain(session_id) == Seq::<IdCluster>::empty());
                assert(self.sessions.table()[si].chain().len() == 0);
                lemma_inv_push_session(pre, *self);
            }
            assert(self.inv_structural());
            assert(self.sessions.table()[si].chain() == pre.session_chain(session_id));
            assert(self.limit_ok()) by {
                if self.final_space.refs().len() > 0 {
                    assert(self.sessions.cluster_at(self.final_space.refs().last())
                        == pre.sessions.cluster_at(pre.final_space.refs().last()));
                }
            }
            assert(finalize_noop_new_session(pre, *self, session_id));
        }
        let chain_was_empty = self.sessions.deref_session_space(
            session_space_ref,
        ).cluster_chain_is_empty();
        if chain_was_empty {
            let r = self.finalize_on_empty_chain(
                session_space_ref,
                session_id,
                range_base_gen,
                range_len,
                Ghost(pre),
            );
            proof {
                assert(finalize_step(pre, *self, range.id, range.range, r));
            }
            r
        } else {
            proof {
                assert(pre.sessions.has_session(session_id));
                assert(*self == pre);
            }
            let r = self.finalize_on_tail(
                session_space_ref,
                session_id,
                range_base_gen,
                range_len,
            );
            proof {
                assert(finalize_step(pre, *self, range.id, range.range, r));
            }
            r
        }
    }
}

/// Fields `finalize_range` never changes.
pub open spec fn finalize_frame(pre: IdCompressor, post: IdCompressor) -> bool {
    &&& post.session_id == pre.session_id
    &&& post.local_session_ref == pre.local_session_ref
    &&& post.generated_id_count == pre.generated_id_count
    &&& post.next_range_base_generation_count == pre.next_range_base_generation_count
    &&& post.cluster_capacity == pre.cluster_capacity
    &&& post.session_space_normalizer == pre.session_space_normalizer
}

/// The session table after a finalization step: unchanged except at index
/// `si`, which carries `sid` and the chain `chain2`; when `si` is one past
/// the old table, the session was created there.
pub open spec fn table_updated(
    pre: IdCompressor,
    post: IdCompressor,
    sid: SessionId,
    si: int,
    chain2: Seq<IdCluster>,
) -> bool {
    &&& post.sessions.table().len() == (if si == pre.sessions.table().len() {
        pre.sessions.table().len() + 1int
    } else {
        pre.sessions.table().len() as int
    })
    &&& forall|k: int|
        0 <= k < pre.sessions.table().len() && k != si ==> post.sessions.table()[k]
            == (#[trigger] pre.sessions.table()[k])
    &&& 0 <= si < post.sessions.table().len()
    &&& post.sessions.table()[si].session_id == sid
    &&& post.sessions.table()[si].index == si
    &&& post.sessions.table()[si].chain() == chain2
}

/// The out-of-order error on an empty chain: nothing changes but, when the
/// session was unknown, its (empty) entry in the table.
pub open spec fn finalize_noop_new_session(
    pre: IdCompressor,
    post: IdCompressor,
    sid: SessionId,
) -> bool {
    if pre.sessions.has_session(sid) {
        post == pre
    } else {
        &&& finalize_frame(pre, post)
        &&& table_updated(pre, post, sid, pre.sessions.table().len() as int, Seq::empty())
        &&& post.final_space == pre.final_space
        &&& post.uuid_space == pre.uuid_space
        &&& post.final_id_limit == pre.final_id_limit
        &&& post.telemetry_stats == pre.telemetry_stats
    }
}

/// A session with an empty chain gains its first cluster: capacity the
/// cluster sizing plus the range length, fully covering the range.
pub open spec fn finalize_start_chain(
    pre: IdCompressor,
    post: IdCompressor,
    sid: SessionId,
    c: u64,
) -> bool {
    let si = pre.session_index_for(sid);
    let newc = IdCluster {
        session_creator: SessionSpaceRef { index: si as usize },
        base_local_id: LocalId { id: -1i64 },
        base_final_id: FinalId { id: pre.fs_end() as u64 },
        capacity: (pre.cluster_capacity + c) as u64,
        count: c,
    };
    &&& finalize_frame(pre, post)
    &&& table_updated(pre, post, sid, si, pre.session_chain(sid).push(newc))
    &&& post.final_space.refs() == pre.final_space.refs().push(cref_at(si, 0))
    &&& uuid_inserted(pre.uuid_space, post.uuid_space, sid.id as int, cref_at(si, 0))
    &&& post.final_id_limit.id == pre.fs_end() + c
    &&& post.telemetry_stats == (TelemetryStats {
        cluster_creation_count: (pre.telemetry_stats.cluster_creation_count + 1) as u64,
        ..pre.telemetry_stats
    })
}

/// The range fits in the tail cluster's remaining capacity: only its
/// finalized count grows.
pub open spec fn finalize_fits(
    pre: IdCompressor,
    post: IdCompressor,
    sid: SessionId,
    c: u64,
) -> bool {
    let si = pre.sessions.index_of(sid);
    let chain = pre.session_chain(sid);
    let tail = chain.last();
    let tail2 = IdCluster { count: (tail.count + c) as u64, ..tail };
    &&& finalize_frame(pre, post)
    &&& table_updated(pre, post, sid, si, chain.update(chain.len() - 1, tail2))
    &&& post.final_space == pre.final_space
    &&& post.uuid_space == pre.uuid_space
    &&& post.limit_ok()
    &&& post.telemetry_stats == pre.telemetry_stats
}

/// The range overflows the tail cluster, which is the global last: it grows
/// in place by the overflow plus the cluster sizing.
pub open spec fn finalize_expand(
    pre: IdCompressor,
    post: IdCompressor,
    sid: SessionId,
    c: u64,
) -> bool {
    let si = pre.sessions.index_of(sid);
    let chain = pre.session_chain(sid);
    let tail = chain.last();
    let claimed = c - (tail.capacity - tail.count) + pre.cluster_capacity;
    let tail2 = IdCluster {
        capacity: (tail.capacity + claimed) as u64,
        count: (tail.count + c) as u64,
        ..tail
    };
    &&& finalize_frame(pre, post)
    &&& table_updated(pre, post, sid, si, chain.update(chain.len() - 1, tail2))
    &&& post.final_space == pre.final_space
    &&& post.uuid_space == pre.uuid_space
    &&& post.limit_ok()
    &&& post.telemetry_stats == (TelemetryStats {
        expansion_count: (pre.telemetry_stats.expansion_count + 1) as u64,
        ..pre.telemetry_stats
    })
}

/// The range overflows a tail cluster that is not the global last: the tail
/// fills, and a successor cluster holds the overflow.
pub open spec fn finalize_fill_and_new(
    pre: IdCompressor,
    post: IdCompressor,
    sid: SessionId,
    c: u64,
) -> bool {
    let si = pre.sessions.index_of(sid);
    let chain = pre.session_chain(sid);
    let tail = chain.last();
    let remaining = tail.capacity - tail.count;
    let overflow = c - remaining;
    let claimed = overflow + pre.cluster_capacity;
    let tail2 = IdCluster { count: tail.capacity, ..tail };
    let newc = IdCluster {
        session_creator: SessionSpaceRef { index: si as usize },
        base_local_id: LocalId { id: (tail.base_local_id.id - tail.capacity) as i64 },
        base_final_id: FinalId { id: pre.fs_end() as u64 },
        capacity: claimed as u64,
        count: overflow as u64,
    };
    &&& finalize_frame(pre, post)
    &&& table_updated(pre, post, sid, si, chain.update(chain.len() - 1, tail2).push(newc))
    &&& post.final_space.refs() == pre.final_space.refs().push(cref_at(si, chain.len() as int))
    &&& uuid_inserted(
        pre.uuid_space,
        post.uuid_space,
        sid.id + tail.base_gen() + tail.capacity - 1,
        cref_at(si, chain.len() as int),
    )
    &&& post.limit_ok()
    &&& post.telemetry_stats == (TelemetryStats {
        cluster_creation_count: (pre.telemetry_stats.cluster_creation_count + 1) as u64,
        ..pre.telemetry_stats
    })
}

/// What one `finalize_range` call does: the full relation between the state
/// before, the state after, the call's arguments and its result.
pub open spec fn finalize_step(
    pre: IdCompressor,
    post: IdCompressor,
    sid: SessionId,
    range: Option<(u64, u64)>,
    r: Result<(), AllocatorError>,
) -> bool {
    match range {
        None => r == Ok::<(), AllocatorError>(()) && post == pre,
        Some((b, c)) => if c == 0 {
            r == Err::<(), AllocatorError>(AllocatorError::MalformedIdRange) && post == pre
        } else {
            let base = sid.id + b - 1;
            let max = base + c + pre.cluster_capacity;
            let chain = pre.session_chain(sid);
            if pre.collision_check(sid, base, max) {
                r == Err::<(), AllocatorError>(AllocatorError::ClusterCollision) && post == pre
            } else if chain.len() == 0 {
                if b != 1 {
                    r == Err::<(), AllocatorError>(AllocatorError::RangeFinalizedOutOfOrder)
                        && finalize_noop_new_session(pre, post, sid)
                } else {
                    r == Ok::<(), AllocatorError>(()) && finalize_start_chain(pre, post, sid, c)
                }
            } else {
                let tail = chain.last();
                if b != tail.end_gen_finalized() {
                    r == Err::<(), AllocatorError>(AllocatorError::RangeFinalizedOutOfOrder)
                        && post == pre
                } else if tail.capacity - tail.count >= c {
                    r == Ok::<(), AllocatorError>(()) && finalize_fits(pre, post, sid, c)
                } else if pre.tail_is_global_last(tail) {
                    r == Ok::<(), AllocatorError>(()) && finalize_expand(pre, post, sid, c)
                } else {
                    r == Ok::<(), AllocatorError>(()) && finalize_fill_and_new(pre, post, sid, c)
                }
            }
        },
    }
}

/// Every existing cluster stands in both indices.
pub proof fn lemma_valid_cref_indexed(c: IdCompressor, x: ClusterRef)
    requires
        c.inv_structural(),
        c.sessions.valid_cref(x),
    ensures
        c.in_final_space(x),
        c.in_uuid_space(x),
{
    let xi = x.session_space_ref.index as int;
    let xc = x.cluster_index as int;
    assert(c.in_final_space(cref_at(xi, xc)) && c.in_uuid_space(cref_at(xi, xc)));
    assert(cref_at(xi, xc) == x);
}

/// The final space holds a cluster reference at one position only.
pub proof fn lemma_fs_position_unique(c: IdCompressor, i: int, j: int)
    requires
        c.inv_structural(),
        0 <= i < c.final_space.refs().len(),
        0 <= j < c.final_space.refs().len(),
        c.final_space.refs()[i] == c.final_space.refs()[j],
    ensures
        i == j,
{
    if i < j {
        crate::final_space::lemma_fs_monotonic(c.final_space, c.sessions, i, j);
        assert(c.sessions.cluster_at(c.final_space.refs()[i]).wf());
    } else if j < i {
        crate::final_space::lemma_fs_monotonic(c.final_space, c.sessions, j, i);
        assert(c.sessions.cluster_at(c.final_space.refs()[j]).wf());
    }
}

/// Two existing clusters with one base final ID are one cluster.
pub proof fn lemma_same_base_final(c: IdCompressor, x: ClusterRef, y: ClusterRef)
    requires
        c.inv_structural(),
        c.sessions.valid_cref(x),
        c.sessions.valid_cref(y),
        c.sessions.cluster_at(x).base_final_id == c.sessions.cluster_at(y).base_final_id,
    ensures
        x == y,
{
    lemma_valid_cref_indexed(c, x);
    lemma_valid_cref_indexed(c, y);
    let i = choose|k: int|
        0 <= k < c.final_space.refs().len() && #[trigger] c.final_space.refs()[k] == x;
    let j = choose|k: int|
        0 <= k < c.final_space.refs().len() && #[trigger] c.final_space.refs()[k] == y;
    if i < j {
        crate::final_space::lemma_fs_monotonic(c.final_space, c.sessions, i, j);
        assert(c.sessions.cluster_at(x).wf());
    } else if j < i {
        crate::final_space::lemma_fs_monotonic(c.final_space, c.sessions, j, i);
        assert(c.sessions.cluster_at(y).wf());
    }
}

/// The structural invariant survives replacing the cluster at `cref` by one
/// with the same creator, base local, base final and capacity: only its
/// finalized count moved.
pub proof fn lemma_inv_count_update(a: IdCompressor, b: IdCompressor, cref: ClusterRef, c2: IdCluster)
    requires
        a.inv_structural(),
        a.sessions.valid_cref(cref),
        c2.session_creator == a.sessions.cluster_at(cref).session_creator,
        c2.base_local_id == a.sessions.cluster_at(cref).base_local_id,
        c2.base_final_id == a.sessions.cluster_at(cref).base_final_id,
        c2.capacity == a.sessions.cluster_at(cref).capacity,
        b.sessions.wf(),
        b.sessions.table().len() == a.sessions.table().len(),
        forall|k: int|
            0 <= k < a.sessions.table().len() && k != cref.session_space_ref.index
                ==> b.sessions.table()[k] == (#[trigger] a.sessions.table()[k]),
        b.sessions.table()[cref.session_space_ref.index as int].session_id
            == a.sessions.table()[cref.session_space_ref.index as int].session_id,
        b.sessions.table()[cref.session_space_ref.index as int].index
            == a.sessions.table()[cref.session_space_ref.index as int].index,
        b.sessions.table()[cref.session_space_ref.index as int].chain()
            == a.sessions.table()[cref.session_space_ref.index as int].chain().update(
            cref.cluster_index as int,
            c2,
        ),
        b.final_space == a.final_space,
        b.uuid_space == a.uuid_space,
        b.local_session_ref == a.local_session_ref,
        b.session_id == a.session_id,
        b.session_space_normalizer == a.session_space_normalizer,
        b.generated_id_count == a.generated_id_count,
        b.next_range_base_generation_count == a.next_range_base_generation_count,
        b.cluster_capacity == a.cluster_capacity,
    ensures
        b.inv_structural(),
{
    let si = cref.session_space_ref.index as int;
    let ci = cref.cluster_index as int;
    assert forall|x: ClusterRef| a.sessions.valid_cref(x) implies b.sessions.valid_cref(x)
        && b.sessions.cluster_base_stable(x) == a.sessions.cluster_base_stable(x)
        && b.sessions.cluster_max_stable(x) == a.sessions.cluster_max_stable(x)
        && b.sessions.cluster_sid(x) == a.sessions.cluster_sid(x)
        && b.sessions.cluster_at(x).base_final_id == a.sessions.cluster_at(x).base_final_id
        && b.sessions.cluster_at(x).capacity == a.sessions.cluster_at(x).capacity by {
        if x.session_space_ref.index as int == si {
            if x.cluster_index as int == ci {
                assert(b.sessions.cluster_at(x) == c2);
            } else {
                assert(b.sessions.cluster_at(x) == a.sessions.cluster_at(x));
            }
        }
    }
    assert forall|x: ClusterRef| b.sessions.valid_cref(x) implies a.sessions.valid_cref(x) by {}
    assert(b.final_space.wf(b.sessions)) by {
        assert(forall|i: int|
            0 <= i < b.final_space.refs().len() ==> b.sessions.valid_cref(
                #[trigger] b.final_space.refs()[i],
            ));
    }
    assert(b.uuid_space.wf(b.sessions));
    assert(b.indices_complete()) by {
        assert forall|si2: int, ci2: int|
            0 <= si2 < b.sessions.table().len() && 0 <= ci2
                < b.sessions.table()[si2].chain().len() implies b.in_final_space(
            #[trigger] cref_at(si2, ci2),
        ) && b.in_uuid_space(cref_at(si2, ci2)) by {
            assert(b.sessions.table()[si2].chain().len()
                == a.sessions.table()[si2].chain().len());
            assert(a.in_final_space(cref_at(si2, ci2)) && a.in_uuid_space(cref_at(si2, ci2)));
            let k1 = choose|k: int|
                0 <= k < a.final_space.refs().len() && #[trigger] a.final_space.refs()[k]
                    == cref_at(si2, ci2);
            assert(b.final_space.refs()[k1] == cref_at(si2, ci2));
            let k2 = choose|k: int|
                0 <= k < a.uuid_space.entries().len() && (#[trigger] a.uuid_space.entries()[k]).1
                    == cref_at(si2, ci2);
            assert(b.uuid_space.entries()[k2].1 == cref_at(si2, ci2));
        }
    }
    assert(b.stable_extents_disjoint()) by {
        assert forall|x: ClusterRef, y: ClusterRef|
            b.sessions.valid_cref(x) && b.sessions.valid_cref(y) && x.session_space_ref
                != y.session_space_ref implies #[trigger] b.sessions.cluster_max_stable(x)
            < b.sessions.cluster_base_stable(y) || #[trigger] b.sessions.cluster_max_stable(y)
            < b.sessions.cluster_base_stable(x) by {
            assert(a.sessions.cluster_max_stable(x) < a.sessions.cluster_base_stable(y)
                || a.sessions.cluster_max_stable(y) < a.sessions.cluster_base_stable(x));
        }
    }
}

/// The structural invariant survives growing the capacity of the final
/// space's last cluster in place, provided the grown stable extent still
/// meets no foreign cluster.
pub proof fn lemma_inv_expand(a: IdCompressor, b: IdCompressor, cref: ClusterRef, c2: IdCluster)
    requires
        a.inv_structural(),
        a.sessions.valid_cref(cref),
        c2.session_creator == a.sessions.cluster_at(cref).session_creator,
        c2.base_local_id == a.sessions.cluster_at(cref).base_local_id,
        c2.base_final_id == a.sessions.cluster_at(cref).base_final_id,
        c2.capacity >= a.sessions.cluster_at(cref).capacity,
        cref.cluster_index == a.sessions.table()[cref.session_space_ref.index as int].chain().len()
            - 1,
        a.final_space.refs().len() > 0,
        a.final_space.refs().last() == cref,
        forall|x: ClusterRef|
            a.sessions.valid_cref(x) && x.session_space_ref != cref.session_space_ref
                ==> #[trigger] a.sessions.cluster_max_stable(x) < a.sessions.cluster_base_stable(
                cref,
            ) || a.sessions.cluster_base_stable(x) > a.sessions.cluster_base_stable(cref)
                + c2.capacity,
        b.sessions.wf(),
        b.sessions.table().len() == a.sessions.table().len(),
        forall|k: int|
            0 <= k < a.sessions.table().len() && k != cref.session_space_ref.index
                ==> b.sessions.table()[k] == (#[trigger] a.sessions.table()[k]),
        b.sessions.table()[cref.session_space_ref.index as int].session_id
            == a.sessions.table()[cref.session_space_ref.index as int].session_id,
        b.sessions.table()[cref.session_space_ref.index as int].index
            == a.sessions.table()[cref.session_space_ref.index as int].index,
        b.sessions.table()[cref.session_space_ref.index as int].chain()
            == a.sessions.table()[cref.session_space_ref.index as int].chain().update(
            cref.cluster_index as int,
            c2,
        ),
        b.final_space == a.final_space,
        b.uuid_space == a.uuid_space,
        b.local_session_ref == a.local_session_ref,
        b.session_id == a.session_id,
        b.session_space_normalizer == a.session_space_normalizer,
        b.generated_id_count == a.generated_id_count,
        b.next_range_base_generation_count == a.next_range_base_generation_count,
        b.cluster_capacity == a.cluster_capacity,
    ensures
        b.inv_structural(),
{
    let si = cref.session_space_ref.index as int;
    let ci = cref.cluster_index as int;
    assert forall|x: ClusterRef| a.sessions.valid_cref(x) implies b.sessions.valid_cref(x)
        && b.sessions.cluster_base_stable(x) == a.sessions.cluster_base_stable(x)
        && b.sessions.cluster_sid(x) == a.sessions.cluster_sid(x)
        && (x != cref ==> b.sessions.cluster_at(x) == a.sessions.cluster_at(x)) by {
        if x.session_space_ref.index as int == si {
            if x.cluster_index as int == ci {
                assert(b.sessions.cluster_at(x) == c2);
            } else {
                assert(b.sessions.cluster_at(x) == a.sessions.cluster_at(x));
            }
        }
    }
    assert(b.sessions.cluster_at(cref) == c2);
    assert forall|x: ClusterRef| b.sessions.valid_cref(x) implies a.sessions.valid_cref(x) by {}
    assert(b.final_space.wf(b.sessions)) by {
        assert forall|i: int|
            0 <= i < b.final_space.refs().len() - 1 implies b.sessions.cluster_at(
            #[trigger] b.final_space.refs()[i],
        ).base_final_id.id + b.sessions.cluster_at(b.final_space.refs()[i]).capacity
            == b.sessions.cluster_at(b.final_space.refs()[i + 1]).base_final_id.id by {
            if b.final_space.refs()[i] == cref {
                lemma_fs_position_unique(a, i, a.final_space.refs().len() - 1);
                assert(false);
            }
        }
    }
    assert(b.uuid_space.wf(b.sessions));
    assert(b.indices_complete()) by {
        assert forall|si2: int, ci2: int|
            0 <= si2 < b.sessions.table().len() && 0 <= ci2
                < b.sessions.table()[si2].chain().len() implies b.in_final_space(
            #[trigger] cref_at(si2, ci2),
        ) && b.in_uuid_space(cref_at(si2, ci2)) by {
            assert(b.sessions.table()[si2].chain().len()
                == a.sessions.table()[si2].chain().len());
            assert(a.in_final_space(cref_at(si2, ci2)) && a.in_uuid_space(cref_at(si2, ci2)));
            let k1 = choose|k: int|
                0 <= k < a.final_space.refs().len() && #[trigger] a.final_space.refs()[k]
                    == cref_at(si2, ci2);
            assert(b.final_space.refs()[k1] == cref_at(si2, ci2));
            let k2 = choose|k: int|
                0 <= k < a.uuid_space.entries().len() && (#[trigger] a.uuid_space.entries()[k]).1
                    == cref_at(si2, ci2);
            assert(b.uuid_space.entries()[k2].1 == cref_at(si2, ci2));
        }
    }
    assert(b.stable_extents_disjoint()) by {
        assert forall|x: ClusterRef, y: ClusterRef|
            b.sessions.valid_cref(x) && b.sessions.valid_cref(y) && x.session_space_ref
                != y.session_space_ref implies #[trigger] b.sessions.cluster_max_stable(x)
            < b.sessions.cluster_base_stable(y) || #[trigger] b.sessions.cluster_max_stable(y)
            < b.sessions.cluster_base_stable(x) by {
            if x == cref {
                assert(a.sessions.cluster_max_stable(y) < a.sessions.cluster_base_stable(cref)
                    || a.sessions.cluster_base_stable(y) > a.sessions.cluster_base_stable(cref)
                        + c2.capacity);
            } else if y == cref {
                assert(a.sessions.cluster_max_stable(x) < a.sessions.cluster_base_stable(cref)
                    || a.sessions.cluster_base_stable(x) > a.sessions.cluster_base_stable(cref)
                        + c2.capacity);
            } else {
                assert(a.sessions.cluster_max_stable(x) < a.sessions.cluster_base_stable(y)
                    || a.sessions.cluster_max_stable(y) < a.sessions.cluster_base_stable(x));
            }
        }
    }
}

/// At most one final-space position covers a given final ID.
pub proof fn lemma_fs_cover_unique(c: IdCompressor, f: int, k1: int, k2: int)
    requires
        c.inv_structural(),
        0 <= k1 < c.final_space.refs().len(),
        0 <= k2 < c.final_space.refs().len(),
        c.sessions.cluster_at(c.final_space.refs()[k1]).covers_final(f),
        c.sessions.cluster_at(c.final_space.refs()[k2]).covers_final(f),
    ensures
        k1 == k2,
        c.final_space.refs()[k1] == c.final_space.refs()[k2],
{
    if k1 < k2 {
        crate::final_space::lemma_fs_monotonic(c.final_space, c.sessions, k1, k2);
    } else if k2 < k1 {
        crate::final_space::lemma_fs_monotonic(c.final_space, c.sessions, k2, k1);
    }
}

/// A chain cluster covering a final ID is the final space's covering cluster.
pub proof fn lemma_chain_cover_is_fs_cover(c: IdCompressor, si: int, j: int, f: int)
    requires
        c.inv_structural(),
        c.sessions.valid_sref(si),
        0 <= j < c.sessions.table()[si].chain().len(),
        c.sessions.table()[si].chain()[j].covers_final(f),
    ensures
        c.some_fs_cluster_covers(f),
        c.fs_cluster_covering(f) == cref_at(si, j),
        c.sessions.valid_cref(cref_at(si, j)),
        c.sessions.cluster_at(cref_at(si, j)) == c.sessions.table()[si].chain()[j],
{
    assert(c.sessions.table()[si].cluster_chain.len() == c.sessions.table()[si].chain().len());
    assert(c.sessions.session_list.len() == c.sessions.table().len());
    assert(cref_at(si, j).session_space_ref.index as int == si);
    assert(cref_at(si, j).cluster_index as int == j);
    assert(c.sessions.valid_cref(cref_at(si, j)));
    assert(c.sessions.cluster_at(cref_at(si, j)) == c.sessions.table()[si].chain()[j]);
    assert(c.in_final_space(cref_at(si, j)));
    let k = choose|k: int|
        0 <= k < c.final_space.refs().len() && #[trigger] c.final_space.refs()[k] == cref_at(si, j);
    assert(c.sessions.cluster_at(c.final_space.refs()[k]).covers_final(f));
    assert(c.some_fs_cluster_covers(f));
    let k2 = choose|k2: int|
        0 <= k2 < c.final_space.refs().len() && c.sessions.cluster_at(
            #[trigger] c.final_space.refs()[k2],
        ).covers_final(f);
    lemma_fs_cover_unique(c, f, k, k2);
}

/// The structural invariant survives appending a session with an empty chain.
pub proof fn lemma_inv_push_session(a: IdCompressor, b: IdCompressor)
    requires
        a.inv_structural(),
        b.sessions.wf(),
        b.sessions.table().len() == a.sessions.table().len() + 1,
        forall|k: int|
            0 <= k < a.sessions.table().len() ==> b.sessions.table()[k] == (
            #[trigger] a.sessions.table()[k]),
        b.sessions.table().last().chain().len() == 0,
        b.sessions.table().len() <= i64::MAX,
        b.final_space == a.final_space,
        b.uuid_space == a.uuid_space,
        b.local_session_ref == a.local_session_ref,
        b.session_id == a.session_id,
        b.session_space_normalizer == a.session_space_normalizer,
        b.generated_id_count == a.generated_id_count,
        b.next_range_base_generation_count == a.next_range_base_generation_count,
        b.cluster_capacity == a.cluster_capacity,
    ensures
        b.inv_structural(),
{
    let n = a.sessions.table().len() as int;
    assert forall|x: ClusterRef| b.sessions.valid_cref(x) implies a.sessions.valid_cref(x)
        && b.sessions.cluster_base_stable(x) == a.sessions.cluster_base_stable(x)
        && b.sessions.cluster_max_stable(x) == a.sessions.cluster_max_stable(x)
        && b.sessions.cluster_at(x) == a.sessions.cluster_at(x) by {
        if x.session_space_ref.index as int == n {
            assert(b.sessions.table()[n].chain().len() == 0);
        }
    }
    assert(forall|x: ClusterRef| a.sessions.valid_cref(x) ==> b.sessions.valid_cref(x));
    assert(b.final_space.wf(b.sessions));
    assert(b.uuid_space.wf(b.sessions));
    assert(b.indices_complete()) by {
        assert forall|si2: int, ci2: int|
            0 <= si2 < b.sessions.table().len() && 0 <= ci2
                < b.sessions.table()[si2].chain().len() implies b.in_final_space(
            #[trigger] cref_at(si2, ci2),
        ) && b.in_uuid_space(cref_at(si2, ci2)) by {
            assert(si2 < n);
            assert(a.in_final_space(cref_at(si2, ci2)) && a.in_uuid_space(cref_at(si2, ci2)));
            let k1 = choose|k: int|
                0 <= k < a.final_space.refs().len() && #[trigger] a.final_space.refs()[k]
                    == cref_at(si2, ci2);
            assert(b.final_space.refs()[k1] == cref_at(si2, ci2));
            let k2 = choose|k: int|
                0 <= k < a.uuid_space.entries().len() && (#[trigger] a.uuid_space.entries()[k]).1
                    == cref_at(si2, ci2);
            assert(b.uuid_space.entries()[k2].1 == cref_at(si2, ci2));
        }
    }
    assert(b.stable_extents_disjoint()) by {
        assert forall|x: ClusterRef, y: ClusterRef|
            b.sessions.valid_cref(x) && b.sessions.valid_cref(y) && x.session_space_ref
                != y.session_space_ref implies #[trigger] b.sessions.cluster_max_stable(x)
            < b.sessions.cluster_base_stable(y) || #[trigger] b.sessions.cluster_max_stable(y)
            < b.sessions.cluster_base_stable(x) by {
            assert(a.sessions.cluster_max_stable(x) < a.sessions.cluster_base_stable(y)
                || a.sessions.cluster_max_stable(y) < a.sessions.cluster_base_stable(x));
        }
    }
}

/// Two clusters of one session with ordered base stable IDs have ordered
/// inclusive stable extents.
proof fn lemma_same_session_stable_order(sessions: Sessions, x: ClusterRef, y: ClusterRef)
    requires
        sessions.wf(),
        sessions.valid_cref(x),
        sessions.valid_cref(y),
        x.session_space_ref == y.session_space_ref,
        sessions.cluster_base_stable(x) < sessions.cluster_base_stable(y),
    ensures
        sessions.cluster_max_stable(x) <= sessions.cluster_base_stable(y),
{
    let s = sessions.table()[x.session_space_ref.index as int];
    let xi = x.cluster_index as int;
    let yi = y.cluster_index as int;
    if xi == yi {
    } else if xi > yi {
        lemma_chain_disjoint(s, yi, xi);
        assert(s.chain()[yi].wf());
    } else {
        lemma_chain_disjoint(s, xi, yi);
    }
}

/// When the collision probe reports no collision for a stable range whose
/// base lies at or beyond every cluster of the finalizing session, no foreign
/// cluster meets the probed range at all.
proof fn lemma_no_foreign_overlap(c: IdCompressor, sid: SessionId, si: int, b: int, base: int, max: int)
    requires
        c.inv_structural(),
        c.sessions.valid_sref(si),
        c.sessions.table()[si].session_id == sid,
        1 <= b,
        base == sid.id + b - 1,
        base <= max,
        !c.collision_check(sid, base, max),
        forall|j: int|
            0 <= j < c.sessions.table()[si].chain().len() ==> (#[trigger] c.sessions.table()[si].chain()[j]).base_gen()
                <= b,
    ensures
        forall|x: ClusterRef|
            c.sessions.valid_cref(x) && x.session_space_ref.index != si ==> #[trigger] c.sessions.cluster_max_stable(
                x,
            ) < base || c.sessions.cluster_base_stable(x) > max,
{
    assert forall|x: ClusterRef|
        c.sessions.valid_cref(x) && x.session_space_ref.index != si implies #[trigger] c.sessions.cluster_max_stable(
        x,
    ) < base || c.sessions.cluster_base_stable(x) > max by {
        if !(c.sessions.cluster_max_stable(x) < base) && !(c.sessions.cluster_base_stable(x)
            > max) {
            let xi = x.session_space_ref.index as int;
            let xc = x.cluster_index as int;
            assert(c.in_uuid_space(cref_at(xi, xc)));
            assert(cref_at(xi, xc) == x);
            let k = choose|k: int|
                0 <= k < c.uuid_space.entries().len() && (#[trigger] c.uuid_space.entries()[k]).1
                    == x;
            assert(c.uuid_space.cref(k) == x);
            assert(c.uuid_space.key(k) == c.sessions.cluster_base_stable(c.uuid_space.cref(k)));
            assert(c.uuid_space.key(k) == c.sessions.cluster_base_stable(x));
            assert(c.uuid_space.key(k) <= max);
            lemma_pred_exists(c.uuid_space, c.sessions, max, k);
            let p = choose|p: int| #[trigger] c.uuid_space.is_pred_idx(max, p);
            let pc = c.uuid_space.cref(p);
            assert(!(c.sessions.cluster_sid(pc) != sid.id && base <= c.sessions.cluster_max_stable(
                pc,
            )));
            assert(c.sessions.table()[xi].session_id != sid);
            assert(c.sessions.cluster_sid(x) != sid.id);
            if k > p {
                assert(p < c.uuid_space.entries().len() - 1);
                if p + 1 < k {
                    lemma_uuid_sorted(c.uuid_space, c.sessions, p + 1, k);
                }
                assert(c.uuid_space.key(p + 1) <= c.uuid_space.key(k));
                assert(false);
            }
            if k == p {
                assert(pc == x);
                assert(c.sessions.cluster_sid(pc) != sid.id);
                assert(base > c.sessions.cluster_max_stable(x));
                assert(false);
            } else {
                lemma_uuid_sorted(c.uuid_space, c.sessions, k, p);
                assert(c.uuid_space.key(k) < c.uuid_space.key(p));
                assert(c.sessions.cluster_base_stable(x) < c.sessions.cluster_base_stable(pc));
                let pi = pc.session_space_ref.index as int;
                if c.sessions.cluster_sid(pc) == sid.id {
                    assert(c.sessions.table()[pi].session_id == sid);
                    assert(pi == si);
                    assert(c.sessions.table()[si].chain()[pc.cluster_index as int].base_gen()
                        <= b);
                    assert(c.sessions.cluster_base_stable(pc) <= base);
                    assert(c.sessions.cluster_max_stable(x) < c.sessions.cluster_base_stable(pc)
                        || c.sessions.cluster_max_stable(pc) < c.sessions.cluster_base_stable(x));
                    assert(c.sessions.cluster_base_stable(pc) <= c.sessions.cluster_max_stable(pc));
                    assert(false);
                } else {
                    assert(base > c.sessions.cluster_max_stable(pc));
                    if pi == xi {
                        lemma_same_session_stable_order(c.sessions, x, pc);
                        assert(c.sessions.cluster_max_stable(x) <= c.sessions.cluster_base_stable(
                            pc,
                        ));
                        assert(c.sessions.cluster_base_stable(pc) <= c.sessions.cluster_max_stable(
                            pc,
                        ));
                        assert(false);
                    } else {
                        assert(c.sessions.cluster_max_stable(x) < c.sessions.cluster_base_stable(
                            pc,
                        ) || c.sessions.cluster_max_stable(pc) < c.sessions.cluster_base_stable(
                            x,
                        ));
                        assert(c.sessions.cluster_base_stable(pc) <= c.sessions.cluster_max_stable(
                            pc,
                        ));
                        assert(false);
                    }
                }
            }
        }
    }
}

} // verus!
