use mesh::bundle::{ImmutableBundleHeader, RelayHeader, WireBundle, PROTOCOL_MAJOR, PROTOCOL_MINOR};
use mesh::mesh_core::{sort_candidates, CoreAction, CoreError, CoreEvent, MeshConfig, MeshCore};
use mesh::error::WireError;
use mesh::store::InsertOutcome;
use mesh::types::{BundleId, BundleType, DiscoveryId, LinkId, Priority, UserId};

fn bundle(destination_id: UserId) -> WireBundle {
    let encrypted_payload = vec![1, 2, 3, 4];
    WireBundle {
        immutable: ImmutableBundleHeader {
            protocol_major: PROTOCOL_MAJOR,
            protocol_minor: PROTOCOL_MINOR,
            bundle_id: BundleId::random(),
            bundle_type: BundleType::DirectMessage,
            sender_id: UserId::random(),
            destination_id,
            created_at_ms: 0,
            ttl_seconds: 60,
            hop_limit: 20,
            priority: Priority::Normal,
            payload_length: encrypted_payload.len() as u32,
        },
        relay: RelayHeader { hop_count: 0, received_at_ms: 0 },
        encrypted_payload,
        sender_signature: vec![0; 64],
    }
}

#[test]
fn tick_prioritises_bundle_for_current_destination() {
    let mut core = MeshCore::open_in_memory(MeshConfig::default()).unwrap();
    let destination = UserId::random();
    let bundle = bundle(destination);
    core.import_bundle(&bundle, 0).unwrap();

    let link = LinkId(1);
    core.process_event(CoreEvent::LinkOpened { link_id: link, peer_token: b"peer".to_vec() }).unwrap();
    core.set_peer_inventory(link, Some(destination), Vec::new()).unwrap();

    let actions = core.process_event(CoreEvent::Tick { now_ms: 1 }).unwrap();
    assert_eq!(
        actions,
        vec![CoreAction::BundleReadyForPeer { link_id: link, bundle_id: bundle.immutable.bundle_id }]
    );
}

// ---------------------------------------------------------------------------
// Further cases
// ---------------------------------------------------------------------------

#[test]
fn default_config() {
    let c = MeshConfig::default();
    assert_eq!(c.default_ttl_secs, 259_200);
    assert_eq!(c.default_hop_limit, 20);
    assert_eq!(c.relay_quota_bytes, 262_144_000);
    assert_eq!((c.normal_replication_limit, c.high_replication_limit, c.emergency_replication_limit), (6, 12, 20));
}

#[test]
fn lower_discovery_id_connects() {
    let mut core = MeshCore::open_in_memory(MeshConfig::default()).unwrap();
    let local = core.local_discovery_id();
    let high = DiscoveryId::from_bytes([0xff; 16]);
    let low = DiscoveryId::from_bytes([0x00; 16]);
    let a = core.process_event(CoreEvent::PeerDiscovered { peer_token: b"a".to_vec(), discovery_id: high }).unwrap();
    if local.as_bytes() < high.as_bytes() {
        assert_eq!(a, vec![CoreAction::Connect { peer_token: b"a".to_vec() }]);
    } else {
        assert!(a.is_empty());
    }
    let b = core.process_event(CoreEvent::PeerDiscovered { peer_token: b"b".to_vec(), discovery_id: low }).unwrap();
    if local.as_bytes() < low.as_bytes() {
        assert_eq!(b, vec![CoreAction::Connect { peer_token: b"b".to_vec() }]);
    } else {
        assert!(b.is_empty());
    }
    let same = core.process_event(CoreEvent::PeerDiscovered { peer_token: b"c".to_vec(), discovery_id: local }).unwrap();
    assert!(same.is_empty());
    assert!(core.process_event(CoreEvent::PeerLost { peer_token: b"a".to_vec() }).unwrap().is_empty());
}

#[test]
fn links_open_and_close() {
    let mut core = MeshCore::open_in_memory(MeshConfig::default()).unwrap();
    let opened = core.process_event(CoreEvent::LinkOpened { link_id: LinkId(7), peer_token: vec![] }).unwrap();
    assert_eq!(opened, vec![CoreAction::Log { code: "LINK_OPENED".to_owned() }]);
    assert!(core.set_peer_inventory(LinkId(7), None, Vec::new()).is_ok());
    assert!(core.process_event(CoreEvent::LinkClosed { link_id: LinkId(7) }).unwrap().is_empty());
    assert!(matches!(
        core.set_peer_inventory(LinkId(7), None, Vec::new()),
        Err(CoreError::UnknownLink(LinkId(7)))
    ));
}

#[test]
fn received_bundles_are_stored_once() {
    let mut core = MeshCore::open_in_memory(MeshConfig::default()).unwrap();
    let b = bundle(UserId::random());
    let bytes = b.encode_cbor().unwrap();
    let first = core.process_event(CoreEvent::BytesReceived { link_id: LinkId(1), data: bytes.clone() }).unwrap();
    assert_eq!(first, vec![CoreAction::BundleStored { bundle_id: b.immutable.bundle_id }]);
    let second = core.process_event(CoreEvent::BytesReceived { link_id: LinkId(1), data: bytes.clone() }).unwrap();
    assert_eq!(second, vec![CoreAction::BundleDuplicate { bundle_id: b.immutable.bundle_id }]);
    assert!(matches!(
        core.process_event(CoreEvent::BytesReceived { link_id: LinkId(1), data: vec![0xbf] }),
        Err(CoreError::Wire(WireError::IndefiniteCbor))
    ));
    assert_eq!(core.import_bundle(&b, 5).unwrap(), InsertOutcome::Duplicate);
}

#[test]
fn tombstoned_bundle_is_reported_as_duplicate() {
    let mut core = MeshCore::open_in_memory(MeshConfig::default()).unwrap();
    let b = bundle(UserId::random());
    core.create_tombstone(b.immutable.bundle_id, 1, 0, 10).unwrap();
    let bytes = b.encode_cbor().unwrap();
    let r = core.process_event(CoreEvent::BytesReceived { link_id: LinkId(1), data: bytes }).unwrap();
    assert_eq!(r, vec![CoreAction::BundleDuplicate { bundle_id: b.immutable.bundle_id }]);
    assert_eq!(core.import_bundle(&b, 0).unwrap(), InsertOutcome::RejectedTombstoned);
}

#[test]
fn tick_orders_and_filters() {
    let mut core = MeshCore::open_in_memory(MeshConfig::default()).unwrap();
    let peer = UserId::random();
    let mine = bundle(peer);
    let mut ack = bundle(UserId::random());
    ack.immutable.bundle_type = BundleType::DeliveryAck;
    let normal = bundle(UserId::random());
    let known = bundle(UserId::random());
    core.import_bundle(&normal, 0).unwrap();
    core.import_bundle(&ack, 0).unwrap();
    core.import_bundle(&mine, 0).unwrap();
    core.import_bundle(&known, 0).unwrap();
    core.process_event(CoreEvent::LinkOpened { link_id: LinkId(2), peer_token: vec![1] }).unwrap();
    core.set_peer_inventory(LinkId(2), Some(peer), vec![known.immutable.bundle_id]).unwrap();
    let actions = core.process_event(CoreEvent::Tick { now_ms: 1 }).unwrap();
    assert_eq!(
        actions,
        vec![
            CoreAction::BundleReadyForPeer { link_id: LinkId(2), bundle_id: mine.immutable.bundle_id },
            CoreAction::BundleReadyForPeer { link_id: LinkId(2), bundle_id: ack.immutable.bundle_id },
            CoreAction::BundleReadyForPeer { link_id: LinkId(2), bundle_id: normal.immutable.bundle_id },
        ]
    );
    // after the replication limit, only the destination still gets its bundle
    for _ in 0..6 {
        core.mark_forwarded(normal.immutable.bundle_id).unwrap();
    }
    let actions = core.process_event(CoreEvent::Tick { now_ms: 1 }).unwrap();
    assert_eq!(actions.len(), 2);
    // expired bundles are not handed on
    assert!(core.process_event(CoreEvent::Tick { now_ms: 60_000 }).unwrap().is_empty());
}

#[test]
fn candidates_sort_by_rank_then_age_stably() {
    let a = BundleId::from_bytes([1; 16]);
    let b = BundleId::from_bytes([2; 16]);
    let c = BundleId::from_bytes([3; 16]);
    let d = BundleId::from_bytes([4; 16]);
    let sorted = sort_candidates(&vec![(100, 5, a), (255, 9, b), (100, 1, c), (100, 5, d)]);
    assert_eq!(sorted, vec![(255, 9, b), (100, 1, c), (100, 5, a), (100, 5, d)]);
}
