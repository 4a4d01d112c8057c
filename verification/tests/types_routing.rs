use mesh::bundle::{ImmutableBundleHeader, RelayHeader, WireBundle, PROTOCOL_MAJOR, PROTOCOL_MINOR};
use mesh::routing::{ControlledEpidemicRouter, PeerContext, RoutingDecision};
use mesh::types::{BundleId, BundleType, LinkId, MessageId, Priority, UserId};

fn bundle(destination: UserId) -> WireBundle {
    let payload = vec![7];
    WireBundle {
        immutable: ImmutableBundleHeader {
            protocol_major: PROTOCOL_MAJOR,
            protocol_minor: PROTOCOL_MINOR,
            bundle_id: BundleId::random(),
            bundle_type: BundleType::DirectMessage,
            sender_id: UserId::random(),
            destination_id: destination,
            created_at_ms: 0,
            ttl_seconds: 60,
            hop_limit: 20,
            priority: Priority::Normal,
            payload_length: 1,
        },
        relay: RelayHeader { hop_count: 0, received_at_ms: 0 },
        encrypted_payload: payload,
        sender_signature: vec![0; 64],
    }
}

#[test]
fn ids_are_distinct_and_16_bytes() {
    let bundle = BundleId::random();
    let message = MessageId::random();
    assert_eq!(bundle.as_bytes().len(), 16);
    assert_eq!(message.as_bytes().len(), 16);
    assert_ne!(bundle.as_bytes(), message.as_bytes());
}

#[test]
fn destination_is_immediate() {
    let destination = UserId::random();
    let bundle = bundle(destination);
    let peer = PeerContext { user_id: Some(destination), known_bundle_ids: Vec::new() };
    let result = ControlledEpidemicRouter::default().evaluate(&bundle, 0, 0, &peer, 1);
    assert_eq!(result, RoutingDecision::SendImmediately);
}

#[test]
fn known_bundle_is_skipped() {
    let destination = UserId::random();
    let bundle = bundle(destination);
    let known = vec![bundle.immutable.bundle_id];
    let peer = PeerContext { user_id: None, known_bundle_ids: known };
    let result = ControlledEpidemicRouter::default().evaluate(&bundle, 0, 0, &peer, 1);
    assert_eq!(result, RoutingDecision::Skip);
}

// ---------------------------------------------------------------------------
// Further cases
// ---------------------------------------------------------------------------

#[test]
fn ids_compare_by_bytes() {
    assert_eq!(UserId::from_bytes([4; 16]), UserId::from_bytes([4; 16]));
    assert_ne!(UserId::from_bytes([4; 16]), UserId::from_bytes([5; 16]));
    assert_eq!(LinkId(3), LinkId(3));
}

#[test]
fn routing_rules_in_order() {
    let router = ControlledEpidemicRouter::default();
    let destination = UserId::from_bytes([9; 16]);
    let stranger = PeerContext { user_id: Some(UserId::from_bytes([8; 16])), known_bundle_ids: Vec::new() };
    let b = bundle(destination);
    // expired: dropped, even for the destination
    let dest = PeerContext { user_id: Some(destination), known_bundle_ids: Vec::new() };
    assert_eq!(router.evaluate(&b, 0, 0, &dest, 60_000), RoutingDecision::Drop);
    // at its hop limit: skipped
    let mut at_limit = bundle(destination);
    at_limit.relay.hop_count = 20;
    assert_eq!(router.evaluate(&at_limit, 0, 0, &dest, 1), RoutingDecision::Skip);
    // other peers: offered below the replication limit, skipped at it
    assert_eq!(router.evaluate(&b, 0, 5, &stranger, 1), RoutingDecision::Offer);
    assert_eq!(router.evaluate(&b, 0, 6, &stranger, 1), RoutingDecision::Skip);
    let mut bulk = bundle(destination);
    bulk.immutable.priority = Priority::Bulk;
    assert_eq!(router.evaluate(&bulk, 0, 2, &stranger, 1), RoutingDecision::Skip);
    let mut emergency = bundle(destination);
    emergency.immutable.priority = Priority::Emergency;
    assert_eq!(router.evaluate(&emergency, 0, 19, &stranger, 1), RoutingDecision::Offer);
}

#[test]
fn transfer_ranks() {
    let destination = UserId::from_bytes([9; 16]);
    let dest = PeerContext { user_id: Some(destination), known_bundle_ids: Vec::new() };
    let other = PeerContext { user_id: None, known_bundle_ids: Vec::new() };
    let mut b = bundle(destination);
    assert_eq!(ControlledEpidemicRouter::transfer_rank(&b, &dest), 255);
    assert_eq!(ControlledEpidemicRouter::transfer_rank(&b, &other), 100);
    b.immutable.bundle_type = BundleType::DeliveryAck;
    assert_eq!(ControlledEpidemicRouter::transfer_rank(&b, &other), 250);
    b.immutable.bundle_type = BundleType::Control;
    b.immutable.priority = Priority::Emergency;
    assert_eq!(ControlledEpidemicRouter::transfer_rank(&b, &other), 240);
    b.immutable.priority = Priority::High;
    assert_eq!(ControlledEpidemicRouter::transfer_rank(&b, &other), 200);
    b.immutable.priority = Priority::Bulk;
    assert_eq!(ControlledEpidemicRouter::transfer_rank(&b, &other), 10);
    assert!(other.knows(&b.immutable.bundle_id) == false);
}

#[test]
fn random_ids_are_version_4_uuids() {
    for _ in 0..8 {
        let id = UserId::random();
        let b = id.as_bytes();
        assert_eq!(b[6] >> 4, 4);
        assert_eq!(b[8] >> 6, 2);
        let d = BundleId::random();
        assert_eq!(d.as_bytes()[6] >> 4, 4);
        assert_eq!(d.as_bytes()[8] >> 6, 2);
    }
}
