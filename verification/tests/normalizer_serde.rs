//! Tests of the session-space normalizer and its persistable byte form.

use distributed_id_allocator::id_types::LocalId;
use distributed_id_allocator::normalizer::SessionSpaceNormalizer;
use distributed_id_allocator::persistence::{
    deserialize_normalizer, serialize_normalizer, Deserializer,
};

#[test]
fn test_serde_normalizer() {
    let mut session_space_normalizer = SessionSpaceNormalizer::new();
    session_space_normalizer.add_local_range(LocalId::from_id(-1), 2);
    session_space_normalizer.add_local_range(LocalId::from_id(-3), 4);
    session_space_normalizer.add_local_range(LocalId::from_id(-15), 1);

    let mut bytes: Vec<u8> = Vec::new();
    serialize_normalizer(&session_space_normalizer, &mut bytes);
    let (normalizer, _) = deserialize_normalizer(Deserializer::new(&bytes)).unwrap();
    assert!(normalizer.eq(&session_space_normalizer));
}

#[test]
fn contiguous_ranges_coalesce() {
    let mut n = SessionSpaceNormalizer::new();
    n.add_local_range(LocalId::from_id(-1), 2);
    n.add_local_range(LocalId::from_id(-3), 4);
    assert_eq!(n.len(), 1);
    assert!(n.contains(LocalId::from_id(-6)));
    assert!(!n.contains(LocalId::from_id(-7)));
}

#[test]
fn disjoint_ranges_stay_apart() {
    let mut n = SessionSpaceNormalizer::new();
    n.add_local_range(LocalId::from_id(-1), 2);
    n.add_local_range(LocalId::from_id(-15), 1);
    assert_eq!(n.len(), 2);
    assert!(n.contains(LocalId::from_id(-2)));
    assert!(!n.contains(LocalId::from_id(-3)));
    assert!(n.contains(LocalId::from_id(-15)));
}

#[test]
fn empty_normalizer_round_trips() {
    let n = SessionSpaceNormalizer::new();
    let mut bytes: Vec<u8> = Vec::new();
    serialize_normalizer(&n, &mut bytes);
    assert_eq!(bytes.len(), 8);
    let (back, _) = deserialize_normalizer(Deserializer::new(&bytes)).unwrap();
    assert!(back.eq(&n));
}

#[test]
fn truncated_normalizer_bytes_are_rejected() {
    let mut n = SessionSpaceNormalizer::new();
    n.add_local_range(LocalId::from_id(-1), 2);
    let mut bytes: Vec<u8> = Vec::new();
    serialize_normalizer(&n, &mut bytes);
    bytes.truncate(bytes.len() - 1);
    assert!(deserialize_normalizer(Deserializer::new(&bytes)).is_none());
}
