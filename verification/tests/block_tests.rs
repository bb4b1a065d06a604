use timestampvm::block::{Block, HEADER_LEN};
use timestampvm::errors::VmError;
use timestampvm::ids::Id;

#[test]
fn round_trip_preserves_all_fields() {
    let parent = Id { w0: 1, w1: 2, w2: 3, w3: 4 };
    let b = Block::new(parent, 7, 1_000_000, b"opaque payload bytes".to_vec());
    let bytes = b.serialize();
    assert_eq!(bytes.len(), HEADER_LEN + b.payload.len());
    let d = Block::deserialize(&bytes).unwrap();
    assert_eq!(d.parent_id, b.parent_id);
    assert_eq!(d.height, b.height);
    assert_eq!(d.timestamp, b.timestamp);
    assert_eq!(d.payload, b.payload);
}

#[test]
fn round_trip_empty_payload() {
    let b = Block::new(Id::zero(), 0, 0, Vec::new());
    let bytes = b.serialize();
    assert_eq!(bytes.len(), HEADER_LEN);
    let d = Block::deserialize(&bytes).unwrap();
    assert_eq!(d.parent_id, Id::zero());
    assert_eq!(d.height, 0);
    assert_eq!(d.timestamp, 0);
    assert!(d.payload.is_empty());
}

#[test]
fn round_trip_extreme_words() {
    let parent = Id { w0: u64::MAX, w1: 0, w2: 0x0123_4567_89ab_cdef, w3: 0x8000_0000_0000_0001 };
    let b = Block::new(parent, u64::MAX, u64::MAX, vec![0u8, 255u8, 1u8]);
    let d = Block::deserialize(&b.serialize()).unwrap();
    assert_eq!(d.parent_id, parent);
    assert_eq!(d.height, u64::MAX);
    assert_eq!(d.timestamp, u64::MAX);
    assert_eq!(d.payload, vec![0u8, 255u8, 1u8]);
}

#[test]
fn deserialize_rejects_short_input() {
    assert!(matches!(Block::deserialize(&Vec::new()), Err(VmError::DecodeError)));
    let short = vec![0u8; HEADER_LEN - 1];
    assert!(matches!(Block::deserialize(&short), Err(VmError::DecodeError)));
}

#[test]
fn id_is_deterministic() {
    let parent = Id { w0: 9, w1: 8, w2: 7, w3: 6 };
    let a = Block::new(parent, 3, 42, b"abc".to_vec());
    let b = Block::new(parent, 3, 42, b"abc".to_vec());
    assert_eq!(a.id(), b.id());
}

#[test]
fn id_depends_on_each_field() {
    let parent = Id { w0: 9, w1: 8, w2: 7, w3: 6 };
    let base = Block::new(parent, 3, 42, b"abc".to_vec());
    let other_payload = Block::new(parent, 3, 42, b"abd".to_vec());
    let other_height = Block::new(parent, 4, 42, b"abc".to_vec());
    let other_time = Block::new(parent, 3, 43, b"abc".to_vec());
    let other_parent = Block::new(Id::zero(), 3, 42, b"abc".to_vec());
    assert_ne!(base.id(), other_payload.id());
    assert_ne!(base.id(), other_height.id());
    assert_ne!(base.id(), other_time.id());
    assert_ne!(base.id(), other_parent.id());
}

#[test]
fn clone_preserves_block() {
    let b = Block::new(Id::zero(), 1, 2, b"xyz".to_vec());
    let c = b.clone();
    assert_eq!(c.parent_id, b.parent_id);
    assert_eq!(c.height, b.height);
    assert_eq!(c.timestamp, b.timestamp);
    assert_eq!(c.payload, b.payload);
    assert_eq!(c.id(), b.id());
}
