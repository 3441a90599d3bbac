//! The value types of the three ID spaces: 128-bit stable IDs, per-session
//! negative local IDs, and globally agreed non-negative final IDs, together
//! with the tagged compressed-ID wrappers and the allocator's error type.

use vstd::prelude::*;

verus! {

/// Errors surfaced by the allocator's public operations.
#[derive(Clone, Copy, Debug, PartialEq, Eq, Structural)]
pub enum AllocatorError {
    /// A zero cluster capacity was requested.
    InvalidClusterCapacity,
    /// The queried session is not yet known to this allocator.
    NoTokenForSession,
    /// A range with a present but zero-length body was finalized.
    MalformedIdRange,
    /// The first local of the finalized range is not the next expected local.
    RangeFinalizedOutOfOrder,
    /// The range would allocate stable IDs overlapping a foreign cluster.
    ClusterCollision,
    /// A session-space ID could not be resolved under the current state.
    InvalidSessionSpaceId,
    /// An op-space ID could not be resolved under the current state.
    InvalidOpSpaceId,
    /// A stable ID could not be resolved under the current state.
    InvalidStableId,
}

/// A session's 128-bit identifier.
#[derive(Clone, Copy, Debug, PartialEq, Eq, Structural)]
pub struct SessionId {
    pub id: u128,
}

impl SessionId {
    /// Wraps a raw 128-bit value as a session identifier.
    pub fn from_uuid_u128(id: u128) -> (r: SessionId)
        ensures
            r.id == id,
    {
        SessionId { id }
    }

    /// Returns the raw 128-bit value of this session identifier.
    pub fn to_uuid_u128(self) -> (r: u128)
        ensures
            r == self.id,
    {
        self.id
    }
}

/// A 128-bit identifier for one allocated ID: the session's identifier plus
/// the ID's zero-based offset within that session.
#[derive(Clone, Copy, Debug, PartialEq, Eq, Structural)]
pub struct StableId {
    pub id: u128,
}

impl StableId {
    /// The sentinel "nil" stable ID, smaller than every session identifier in use.
    pub fn nil() -> (r: StableId)
        ensures
            r.id == 0,
    {
        StableId { id: 0 }
    }

    /// The stable ID at offset 0 of the given session.
    pub fn from_session_id(session_id: SessionId) -> (r: StableId)
        ensures
            r.id == session_id.id,
    {
        StableId { id: session_id.id }
    }

    /// This stable ID advanced by a non-negative offset; overflow is caller error.
    pub fn add_offset(self, offset: u128) -> (r: StableId)
        requires
            self.id + offset <= u128::MAX,
        ensures
            r.id == self.id + offset,
    {
        StableId { id: self.id + offset }
    }

    /// The stable ID of the local ID `local` within the session this stable
    /// ID is the base of: offset `generation_count - 1` from the base.
    pub fn add_local(self, local: LocalId) -> (r: StableId)
        requires
            local.wf(),
            self.id + local.gen() - 1 <= u128::MAX,
        ensures
            r.id == self.id + local.gen() - 1,
    {
        StableId { id: self.id + (local.to_generation_count() - 1) as u128 }
    }

    /// The non-negative distance from `other` up to this stable ID.
    pub fn offset_from(self, other: StableId) -> (r: u128)
        requires
            other.id <= self.id,
        ensures
            r == self.id - other.id,
    {
        self.id - other.id
    }
}

/// A strictly negative signed integer: a session's private handle for an ID
/// generated before finalization. Successive allocations run -1, -2, -3, ...
/// The generation count of a local ID is its negation, a 1-based count.
#[derive(Clone, Copy, Debug, PartialEq, Eq, Structural)]
pub struct LocalId {
    pub id: i64,
}

impl LocalId {
    /// A local ID is well formed when strictly negative and its generation
    /// count fits the machine's signed range.
    pub open spec fn wf(self) -> bool {
        i64::MIN < self.id < 0
    }

    /// The 1-based generation count of this local ID.
    pub open spec fn gen(self) -> int {
        -(self.id as int)
    }

    /// Wraps a raw negative value as a local ID.
    pub fn from_id(id: i64) -> (r: LocalId)
        requires
            i64::MIN < id < 0,
        ensures
            r.id == id,
            r.wf(),
    {
        LocalId { id }
    }

    /// The local ID with the given 1-based generation count.
    pub fn from_generation_count(generation_count: u64) -> (r: LocalId)
        requires
            1 <= generation_count <= i64::MAX,
        ensures
            r.wf(),
            r.gen() == generation_count,
    {
        LocalId { id: -(generation_count as i64) }
    }

    /// The 1-based generation count of this local ID.
    pub fn to_generation_count(self) -> (r: u64)
        requires
            self.wf(),
        ensures
            r == self.gen(),
    {
        (-self.id) as u64
    }

    /// The local ID `offset` allocations after this one (more negative).
    pub fn sub_offset(self, offset: u64) -> (r: LocalId)
        requires
            self.wf(),
            self.gen() + offset <= i64::MAX,
        ensures
            r.wf(),
            r.gen() == self.gen() + offset,
    {
        LocalId { id: self.id - (offset as i64) }
    }
}

/// A non-negative integer: the globally agreed dense handle of an ID after
/// finalization. Final IDs form a gapless global sequence starting at 0.
#[derive(Clone, Copy, Debug, PartialEq, Eq, Structural)]
pub struct FinalId {
    pub id: u64,
}

/// The final ID with the given non-negative value.
pub fn final_id_from_id(id: u64) -> (r: FinalId)
    ensures
        r.id == id,
{
    FinalId { id }
}

impl FinalId {
    /// A final ID is well formed when it fits the signed encoding that the
    /// compressed-ID wrappers use.
    pub open spec fn wf(self) -> bool {
        self.id <= i64::MAX
    }

    /// This final ID advanced by a non-negative offset; overflow is caller error.
    pub fn add_offset(self, offset: u64) -> (r: FinalId)
        requires
            self.id + offset <= u64::MAX,
        ensures
            r.id == self.id + offset,
    {
        FinalId { id: self.id + offset }
    }
}

/// The tagged union of the two compressed-ID varieties.
#[derive(Clone, Copy, Debug, PartialEq, Eq, Structural)]
pub enum CompressedId {
    /// A session-private negative handle.
    Local(LocalId),
    /// A globally agreed non-negative handle.
    Final(FinalId),
}

/// A compressed ID meaningful to the owning session: a final ID, or one of
/// the session's own local IDs. The sign of the encoded integer carries the
/// tag: negative means local, non-negative means final.
#[derive(Clone, Copy, Debug, PartialEq, Eq, Structural)]
pub struct SessionSpaceId {
    pub id: i64,
}

/// A compressed ID as it appears in ordered operations: a final ID, or a
/// local ID of a sender whose cluster is not yet known to receivers. The sign
/// of the encoded integer carries the tag: negative means local, non-negative
/// means final.
#[derive(Clone, Copy, Debug, PartialEq, Eq, Structural)]
pub struct OpSpaceId {
    pub id: i64,
}

impl SessionSpaceId {
    /// Well formed when a negative encoding is a well-formed local ID.
    pub open spec fn wf(self) -> bool {
        self.id > i64::MIN
    }

    /// True when the encoded ID is a local ID.
    pub open spec fn is_local_spec(self) -> bool {
        self.id < 0
    }

    /// The session-space ID encoding the given local ID.
    pub fn from_local(local: LocalId) -> (r: SessionSpaceId)
        ensures
            r.id == local.id,
    {
        SessionSpaceId { id: local.id }
    }

    /// The session-space ID encoding the given final ID.
    pub fn from_final(final_id: FinalId) -> (r: SessionSpaceId)
        requires
            final_id.wf(),
        ensures
            r.id == final_id.id,
    {
        SessionSpaceId { id: final_id.id as i64 }
    }

    /// True when the encoded ID is a local ID.
    pub fn is_local(self) -> (r: bool)
        ensures
            r == self.is_local_spec(),
    {
        self.id < 0
    }

    /// Splits the encoded integer into its tagged form.
    pub fn to_space(self) -> (r: CompressedId)
        requires
            self.wf(),
        ensures
            self.is_local_spec() ==> r == CompressedId::Local(LocalId { id: self.id }),
            !self.is_local_spec() ==> r == CompressedId::Final(FinalId { id: self.id as u64 }),
            r matches CompressedId::Local(l) ==> l.wf(),
            r matches CompressedId::Final(f) ==> f.wf(),
    {
        if self.id < 0 {
            CompressedId::Local(LocalId { id: self.id })
        } else {
            CompressedId::Final(FinalId { id: self.id as u64 })
        }
    }
}

impl OpSpaceId {
    /// Well formed when a negative encoding is a well-formed local ID.
    pub open spec fn wf(self) -> bool {
        self.id > i64::MIN
    }

    /// True when the encoded ID is a local ID.
    pub open spec fn is_local_spec(self) -> bool {
        self.id < 0
    }

    /// The op-space ID encoding the given local ID.
    pub fn from_local(local: LocalId) -> (r: OpSpaceId)
        ensures
            r.id == local.id,
    {
        OpSpaceId { id: local.id }
    }

    /// The op-space ID encoding the given final ID.
    pub fn from_final(final_id: FinalId) -> (r: OpSpaceId)
        requires
            final_id.wf(),
        ensures
            r.id == final_id.id,
    {
        OpSpaceId { id: final_id.id as i64 }
    }

    /// True when the encoded ID is a local ID.
    pub fn is_local(self) -> (r: bool)
        ensures
            r == self.is_local_spec(),
    {
        self.id < 0
    }

    /// Splits the encoded integer into its tagged form.
    pub fn to_space(self) -> (r: CompressedId)
        requires
            self.wf(),
        ensures
            self.is_local_spec() ==> r == CompressedId::Local(LocalId { id: self.id }),
            !self.is_local_spec() ==> r == CompressedId::Final(FinalId { id: self.id as u64 }),
            r matches CompressedId::Local(l) ==> l.wf(),
            r matches CompressedId::Final(f) ==> f.wf(),
    {
        if self.id < 0 {
            CompressedId::Local(LocalId { id: self.id })
        } else {
            CompressedId::Final(FinalId { id: self.id as u64 })
        }
    }
}

} // verus!
