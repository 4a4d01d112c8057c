use mesh::bundle::{ImmutableBundleHeader, RelayHeader, WireBundle, PROTOCOL_MAJOR, PROTOCOL_MINOR};
use mesh::error::WireError;
use mesh::store::{InsertOutcome, MeshStore, StoreError};
use mesh::types::{BundleId, BundleType, Priority, UserId};

fn sample_bundle() -> WireBundle {
    let payload = vec![1, 2, 3];
    WireBundle {
        immutable: ImmutableBundleHeader {
            protocol_major: PROTOCOL_MAJOR,
            protocol_minor: PROTOCOL_MINOR,
            bundle_id: BundleId::random(),
            bundle_type: BundleType::DirectMessage,
            sender_id: UserId::random(),
            destination_id: UserId::random(),
            created_at_ms: 0,
            ttl_seconds: 60,
            hop_limit: 20,
            priority: Priority::Normal,
            payload_length: payload.len() as u32,
        },
        relay: RelayHeader { hop_count: 0, received_at_ms: 0 },
        encrypted_payload: payload,
        sender_signature: vec![0; 64],
    }
}

#[test]
fn duplicate_bundle_is_rejected() {
    let mut store = MeshStore::open_in_memory().unwrap();
    let bundle = sample_bundle();
    assert_eq!(store.insert_bundle(&bundle, 0).unwrap(), InsertOutcome::Inserted);
    assert_eq!(store.insert_bundle(&bundle, 0).unwrap(), InsertOutcome::Duplicate);
}

#[test]
fn tombstone_prevents_reinsertion() {
    let mut store = MeshStore::open_in_memory().unwrap();
    let bundle = sample_bundle();
    store.insert_bundle(&bundle, 0).unwrap();
    store.create_tombstone(bundle.immutable.bundle_id, 1, 100, 1_000).unwrap();
    assert_eq!(store.insert_bundle(&bundle, 200).unwrap(), InsertOutcome::RejectedTombstoned);
}

// ---------------------------------------------------------------------------
// Further cases
// ---------------------------------------------------------------------------

#[test]
fn tombstone_removes_the_bundle_and_blocks_a_fresh_copy() {
    let mut store = MeshStore::open_in_memory().unwrap();
    let bundle = sample_bundle();
    store.insert_bundle(&bundle, 0).unwrap();
    assert!(store.contains_bundle(bundle.immutable.bundle_id).unwrap());
    store.create_tombstone(bundle.immutable.bundle_id, 1, 100, 1_000).unwrap();
    assert!(!store.contains_bundle(bundle.immutable.bundle_id).unwrap());
    assert!(store.is_tombstoned(bundle.immutable.bundle_id).unwrap());
    assert!(store.list_bundles().unwrap().is_empty());
    // a tombstone for a bundle never seen also blocks it
    let other = sample_bundle();
    store.create_tombstone(other.immutable.bundle_id, 2, 0, 0).unwrap();
    assert_eq!(store.insert_bundle(&other, 5).unwrap(), InsertOutcome::RejectedTombstoned);
    // replacing a tombstone keeps it
    store.create_tombstone(other.immutable.bundle_id, 3, 1, 1).unwrap();
    assert!(store.is_tombstoned(other.immutable.bundle_id).unwrap());
}

#[test]
fn listing_orders_by_priority_then_first_seen() {
    let mut store = MeshStore::open_in_memory().unwrap();
    let mut bulk = sample_bundle();
    bulk.immutable.priority = Priority::Bulk;
    let normal_late = sample_bundle();
    let normal_early = sample_bundle();
    let mut emergency = sample_bundle();
    emergency.immutable.priority = Priority::Emergency;
    store.insert_bundle(&bulk, 1).unwrap();
    store.insert_bundle(&normal_late, 50).unwrap();
    store.insert_bundle(&normal_early, 10).unwrap();
    store.insert_bundle(&emergency, 99).unwrap();
    let listed = store.list_bundles().unwrap();
    let ids: Vec<BundleId> = listed.iter().map(|s| s.bundle.immutable.bundle_id).collect();
    assert_eq!(
        ids,
        vec![
            emergency.immutable.bundle_id,
            normal_early.immutable.bundle_id,
            normal_late.immutable.bundle_id,
            bulk.immutable.bundle_id,
        ]
    );
    assert_eq!(listed[1].first_seen_at_ms, 10);
    assert_eq!(listed[0].bundle, emergency);
    assert!(listed.iter().all(|s| s.forward_count == 0));
}

#[test]
fn forward_count_increments() {
    let mut store = MeshStore::open_in_memory().unwrap();
    let bundle = sample_bundle();
    store.insert_bundle(&bundle, 0).unwrap();
    store.increment_forward_count(bundle.immutable.bundle_id).unwrap();
    store.increment_forward_count(bundle.immutable.bundle_id).unwrap();
    store.increment_forward_count(BundleId::random()).unwrap();
    assert_eq!(store.list_bundles().unwrap()[0].forward_count, 2);
}

#[test]
fn invalid_bundle_is_a_wire_error() {
    let mut store = MeshStore::open_in_memory().unwrap();
    let mut bundle = sample_bundle();
    bundle.immutable.hop_limit = 0;
    assert!(matches!(store.insert_bundle(&bundle, 0), Err(StoreError::Wire(WireError::InvalidHopLimit))));
    assert!(!store.contains_bundle(bundle.immutable.bundle_id).unwrap());
}

#[test]
fn open_by_path_works_like_a_fresh_store() {
    // SQLite's name for a private in-memory database
    let mut store = MeshStore::open(":memory:").unwrap();
    let bundle = sample_bundle();
    assert_eq!(store.insert_bundle(&bundle, 7).unwrap(), InsertOutcome::Inserted);
    assert_eq!(store.insert_bundle(&bundle, 8).unwrap(), InsertOutcome::Duplicate);
    assert_eq!(store.list_bundles().unwrap()[0].first_seen_at_ms, 7);
}

#[test]
fn fresh_stores_are_usable() {
    // each opened store has its tables ready
    let mut a = MeshStore::open(":memory:").unwrap();
    let mut b = MeshStore::open_in_memory().unwrap();
    let bundle = sample_bundle();
    assert_eq!(a.insert_bundle(&bundle, 1).unwrap(), InsertOutcome::Inserted);
    assert_eq!(b.insert_bundle(&bundle, 1).unwrap(), InsertOutcome::Inserted);
    assert!(a.is_tombstoned(bundle.immutable.bundle_id).is_ok());
}
