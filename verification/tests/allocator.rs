//! End-to-end tests of the allocator: generation, range taking, finalization
//! across sessions, the mapping operations, and the error paths.

use distributed_id_allocator::compressor::{IdCompressor, IdRange};
use distributed_id_allocator::id_types::{AllocatorError, SessionId, SessionSpaceId, StableId};

fn session_a() -> SessionId {
    SessionId::from_uuid_u128(0x1000_0000_0000_0000_0000_0000_0000)
}

fn session_b() -> SessionId {
    SessionId::from_uuid_u128(0x8000_0000_0000_0000_0000_0000_0000)
}

fn new_pair() -> (IdCompressor, IdCompressor) {
    let mut a = IdCompressor::new_with_session_id(session_a());
    let mut b = IdCompressor::new_with_session_id(session_b());
    a.set_cluster_capacity(5).unwrap();
    b.set_cluster_capacity(5).unwrap();
    (a, b)
}

#[test]
fn first_generated_id_is_local_minus_one() {
    let mut a = IdCompressor::new_with_session_id(session_a());
    let id = a.generate_next_id();
    assert_eq!(id.id, -1);
}

#[test]
fn take_next_range_twice_second_is_none() {
    let mut a = IdCompressor::new_with_session_id(session_a());
    a.generate_next_id();
    a.generate_next_id();
    let first = a.take_next_range();
    assert_eq!(first.range, Some((1, 2)));
    let second = a.take_next_range();
    assert!(second.range.is_none());
}

#[test]
fn take_next_range_empty_is_none() {
    let mut a = IdCompressor::new_with_session_id(session_a());
    let r = a.take_next_range();
    assert!(r.range.is_none());
}

#[test]
fn finalize_out_of_order_is_rejected() {
    let (mut a, _) = new_pair();
    a.generate_next_id();
    let bad = IdRange { id: session_a(), range: Some((5, 1)) };
    assert_eq!(
        a.finalize_range(&bad),
        Err(AllocatorError::RangeFinalizedOutOfOrder)
    );
}

#[test]
fn finalize_zero_count_is_malformed() {
    let (mut a, _) = new_pair();
    let bad = IdRange { id: session_a(), range: Some((1, 0)) };
    assert_eq!(a.finalize_range(&bad), Err(AllocatorError::MalformedIdRange));
}

#[test]
fn finalize_empty_range_is_ok_and_changes_nothing() {
    let (mut a, _) = new_pair();
    let none = IdRange { id: session_a(), range: None };
    assert_eq!(a.finalize_range(&none), Ok(()));
    assert_eq!(a.final_id_limit.id, 0);
}

#[test]
fn set_cluster_capacity_zero_is_rejected() {
    let mut a = IdCompressor::new_with_session_id(session_a());
    assert_eq!(
        a.set_cluster_capacity(0),
        Err(AllocatorError::InvalidClusterCapacity)
    );
    assert_eq!(a.get_cluster_capacity(), IdCompressor::get_default_cluster_capacity());
}

#[test]
fn token_for_unknown_session_is_an_error() {
    let (a, _) = new_pair();
    assert_eq!(
        a.get_session_token_from_session_id(session_b()),
        Err(AllocatorError::NoTokenForSession)
    );
}

#[test]
fn collision_of_overlapping_sessions_is_rejected() {
    // Two "sessions" whose 128-bit spaces overlap: the second finalize would
    // allocate stable IDs inside the first session's cluster extent.
    let mut c = IdCompressor::new_with_session_id(SessionId::from_uuid_u128(999));
    c.set_cluster_capacity(5).unwrap();
    let first = IdRange { id: SessionId::from_uuid_u128(100), range: Some((1, 3)) };
    assert_eq!(c.finalize_range(&first), Ok(()));
    let second = IdRange { id: SessionId::from_uuid_u128(101), range: Some((1, 3)) };
    assert_eq!(c.finalize_range(&second), Err(AllocatorError::ClusterCollision));
}

#[test]
fn two_session_scenario() {
    // Sessions A and B, cluster capacity 5, as one interleaved run.
    let (mut a, mut b) = new_pair();

    // A generates three locals.
    assert_eq!(a.generate_next_id().id, -1);
    assert_eq!(a.generate_next_id().id, -2);
    assert_eq!(a.generate_next_id().id, -3);
    let r1 = a.take_next_range();
    assert_eq!(r1.range, Some((1, 3)));
    assert_eq!(a.finalize_range(&r1), Ok(()));
    assert_eq!(b.finalize_range(&r1), Ok(()));
    // A's chain now holds one cluster: base local -1, base final 0,
    // capacity 5 + 3 = 8, count 3; the limit is 3 on both.
    let a_cluster = a.sessions.session_list[0].cluster_chain[0];
    assert_eq!(a_cluster.base_local_id.id, -1);
    assert_eq!(a_cluster.base_final_id.id, 0);
    assert_eq!(a_cluster.capacity, 8);
    assert_eq!(a_cluster.count, 3);
    assert_eq!(a.final_id_limit.id, 3);
    assert_eq!(b.final_id_limit.id, 3);

    // A generates two more: eager finals 3 and 4.
    assert_eq!(a.generate_next_id().id, 3);
    assert_eq!(a.generate_next_id().id, 4);
    assert_eq!(a.telemetry_stats.eager_final_count, 2);
    let r2 = a.take_next_range();
    assert_eq!(r2.range, Some((4, 2)));
    assert_eq!(a.finalize_range(&r2), Ok(()));
    assert_eq!(b.finalize_range(&r2), Ok(()));
    assert_eq!(a.sessions.session_list[0].cluster_chain[0].count, 5);
    assert_eq!(a.final_id_limit.id, 5);

    // B generates one local and both finalize; B's cluster follows A's
    // reserved capacity, so its base final is 8.
    assert_eq!(b.generate_next_id().id, -1);
    let r3 = b.take_next_range();
    assert_eq!(r3.range, Some((1, 1)));
    assert_eq!(b.finalize_range(&r3), Ok(()));
    assert_eq!(a.finalize_range(&r3), Ok(()));
    let b_cluster = b.sessions.session_list[0].cluster_chain[0];
    assert_eq!(b_cluster.base_final_id.id, 8);
    assert_eq!(b_cluster.capacity, 6);
    assert_eq!(a.final_id_limit.id, 9);
    assert_eq!(b.final_id_limit.id, 9);

    // A generates four more: three eager finals in the remaining capacity,
    // then a local past it.
    assert_eq!(a.generate_next_id().id, 5);
    assert_eq!(a.generate_next_id().id, 6);
    assert_eq!(a.generate_next_id().id, 7);
    assert_eq!(a.generate_next_id().id, -9);
    let r4 = a.take_next_range();
    assert_eq!(r4.range, Some((6, 4)));
    assert_eq!(a.finalize_range(&r4), Ok(()));
    assert_eq!(b.finalize_range(&r4), Ok(()));
    // A's first cluster is not the global tail (B's is), so it fills and a
    // successor cluster holds the overflow, based after B's reservation.
    let a_first = a.sessions.session_list[0].cluster_chain[0];
    assert_eq!(a_first.count, 8);
    let a_second = a.sessions.session_list[0].cluster_chain[1];
    assert_eq!(a_second.base_local_id.id, -9);
    assert_eq!(a_second.base_final_id.id, 14);
    assert_eq!(a_second.capacity, 6);
    assert_eq!(a_second.count, 1);
    assert!(a.telemetry_stats.cluster_creation_count >= 2);

    // Both sides agree on all finalized state throughout.
    assert!(a.equals_test_only(&b, false));
}

#[test]
fn lone_session_expands_tail_in_place() {
    // Without B, A's cluster is the global tail and grows in place.
    let (mut a, _) = new_pair();
    for _ in 0..3 {
        a.generate_next_id();
    }
    let r1 = a.take_next_range();
    a.finalize_range(&r1).unwrap();
    for _ in 0..6 {
        a.generate_next_id();
    }
    let r2 = a.take_next_range();
    assert_eq!(r2.range, Some((4, 6)));
    a.finalize_range(&r2).unwrap();
    assert_eq!(a.sessions.session_list[0].cluster_chain.len(), 1);
    let c = a.sessions.session_list[0].cluster_chain[0];
    // The overflow of one plus the cluster capacity of five grew the tail.
    assert_eq!(c.capacity, 14);
    assert_eq!(c.count, 9);
    assert_eq!(a.telemetry_stats.expansion_count, 1);
}

#[test]
fn exact_fill_then_new_cluster() {
    // A range that exactly fills the tail, then one that starts anew.
    let (mut a, mut b) = new_pair();
    for _ in 0..3 {
        a.generate_next_id();
    }
    let r1 = a.take_next_range();
    a.finalize_range(&r1).unwrap();
    b.finalize_range(&r1).unwrap();
    // Fill the remaining five slots exactly.
    for _ in 0..5 {
        a.generate_next_id();
    }
    let r2 = a.take_next_range();
    a.finalize_range(&r2).unwrap();
    b.finalize_range(&r2).unwrap();
    assert_eq!(a.sessions.session_list[0].cluster_chain[0].count, 8);
    assert_eq!(a.sessions.session_list[0].cluster_chain.len(), 1);
    // B takes the global tail; A's next range must open a new cluster.
    b.generate_next_id();
    let r3 = b.take_next_range();
    a.finalize_range(&r3).unwrap();
    b.finalize_range(&r3).unwrap();
    a.generate_next_id();
    let r4 = a.take_next_range();
    a.finalize_range(&r4).unwrap();
    b.finalize_range(&r4).unwrap();
    assert_eq!(a.sessions.session_list[0].cluster_chain.len(), 2);
}

#[test]
fn decompress_recompress_round_trip_for_local() {
    let mut a = IdCompressor::new_with_session_id(session_a());
    let id = a.generate_next_id();
    let stable = a.decompress(id).unwrap();
    assert_eq!(stable.id, session_a().to_uuid_u128());
    assert_eq!(a.recompress(stable), Ok(id));
}

#[test]
fn decompress_recompress_round_trip_for_eager_final() {
    let (mut a, _) = new_pair();
    a.generate_next_id();
    let r = a.take_next_range();
    a.finalize_range(&r).unwrap();
    let id = a.generate_next_id();
    assert_eq!(id.id, 1);
    let stable = a.decompress(id).unwrap();
    assert_eq!(stable.id, session_a().to_uuid_u128() + 1);
    assert_eq!(a.recompress(stable), Ok(id));
}

#[test]
fn recompress_of_unknown_stable_is_rejected() {
    let a = IdCompressor::new_with_session_id(session_a());
    let foreign = StableId::nil().add_offset(42);
    assert_eq!(a.recompress(foreign), Err(AllocatorError::InvalidStableId));
}

#[test]
fn decompress_of_unknown_local_is_rejected() {
    let a = IdCompressor::new_with_session_id(session_a());
    let bogus = SessionSpaceId { id: -7 };
    assert_eq!(a.decompress(bogus), Err(AllocatorError::InvalidSessionSpaceId));
}

#[test]
fn normalize_finalized_local_keeps_decompression() {
    let (mut a, _) = new_pair();
    let id = a.generate_next_id();
    let r = a.take_next_range();
    a.finalize_range(&r).unwrap();
    let op = a.normalize_to_op_space(id).unwrap();
    assert_eq!(op.id, 0);
    let as_final = SessionSpaceId { id: op.id };
    assert_eq!(a.decompress(as_final), a.decompress(id));
}

#[test]
fn normalize_unfinalized_local_stays_local() {
    let mut a = IdCompressor::new_with_session_id(session_a());
    let id = a.generate_next_id();
    let op = a.normalize_to_op_space(id).unwrap();
    assert_eq!(op.id, id.id);
}

#[test]
fn normalize_to_session_space_across_sessions() {
    let (mut a, mut b) = new_pair();
    let id = a.generate_next_id();
    let r = a.take_next_range();
    a.finalize_range(&r).unwrap();
    b.finalize_range(&r).unwrap();
    // A sends its pending local; B resolves it through A's finalized cluster.
    let op = a.normalize_to_op_space(id).unwrap();
    let at_b = b.normalize_to_session_space(op, session_a()).unwrap();
    assert_eq!(at_b.id, 0);
    // An unknown originator with a local op-space ID has no token.
    let fresh = IdCompressor::new_with_session_id(SessionId::from_uuid_u128(7));
    let local_op = distributed_id_allocator::id_types::OpSpaceId { id: -1 };
    assert_eq!(
        fresh.normalize_to_session_space(local_op, session_b()),
        Err(AllocatorError::NoTokenForSession)
    );
}

#[test]
fn normalize_unfinalized_final_is_rejected() {
    let (a, _) = new_pair();
    let bogus = distributed_id_allocator::id_types::OpSpaceId { id: 3 };
    assert_eq!(
        a.normalize_to_session_space(bogus, session_b()),
        Err(AllocatorError::InvalidOpSpaceId)
    );
}

#[test]
fn same_finalize_sequence_gives_finalized_equal_compressors() {
    // Two observers with different session identifiers, fed the same
    // finalize sequence in the same order, agree on all finalized state.
    let (mut a, mut b) = new_pair();
    let mut c = IdCompressor::new_with_session_id(SessionId::from_uuid_u128(3));
    c.set_cluster_capacity(5).unwrap();
    for _ in 0..4 {
        a.generate_next_id();
    }
    let r1 = a.take_next_range();
    for _ in 0..2 {
        b.generate_next_id();
    }
    let r2 = b.take_next_range();
    for x in [&mut a, &mut b, &mut c] {
        x.finalize_range(&r1).unwrap();
        x.finalize_range(&r2).unwrap();
    }
    assert!(a.equals_test_only(&b, false));
    assert!(b.equals_test_only(&c, false));
    assert!(!a.equals_test_only(&b, true));
}

#[test]
fn telemetry_stats_reset_on_read() {
    let (mut a, _) = new_pair();
    a.generate_next_id();
    let stats = a.get_telemetry_stats();
    assert_eq!(stats.local_id_count, 1);
    let again = a.get_telemetry_stats();
    assert_eq!(again.local_id_count, 0);
}
