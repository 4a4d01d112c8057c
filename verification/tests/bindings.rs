use mesh::bindings::{
    from_core_action, generate_identity, id16, identity_from_seeds, key32, public_identity_record, status_record,
    to_core_event, to_hex, user_id, conversation_id_from, MeshAction, MeshError, MeshEvent,
};
use mesh::crypto::identity::Identity;
use mesh::mesh_core::{CoreAction, CoreEvent};
use mesh::types::{BundleId, DiscoveryId, LinkId};

#[test]
fn short_keys_are_refused() {
    assert!(matches!(key32(vec![1, 2, 3]), Err(MeshError::InvalidKey)));
    assert!(matches!(identity_from_seeds(vec![1, 2, 3], vec![0; 32]), Err(MeshError::InvalidKey)));
    assert_eq!(key32(vec![9; 32]).unwrap(), [9; 32]);
    assert!(matches!(id16(vec![0; 17]), Err(MeshError::InvalidIdentifier)));
    assert!(matches!(user_id(vec![0; 15]), Err(MeshError::InvalidIdentifier)));
    assert_eq!(conversation_id_from(vec![3; 16]).unwrap().as_bytes(), &[3; 16]);
}

#[test]
fn hex_is_lower_case_two_digits_per_byte() {
    assert_eq!(to_hex(&[0x00, 0x0f, 0xa5, 0xff]), "000fa5ff");
    assert_eq!(to_hex(&[]), "");
}

#[test]
fn generated_identity_is_consistent() {
    let s = generate_identity();
    assert_eq!(s.signing_seed.len(), 32);
    assert_eq!(s.local_data_key.len(), 32);
    let id = identity_from_seeds(s.signing_seed.clone(), s.encryption_seed.clone()).unwrap();
    let public = public_identity_record(&id);
    assert_eq!(public.user_id, s.user_id);
    assert_eq!(public.signing_public, s.signing_public);
    assert_eq!(public.encryption_public, s.encryption_public);
    assert_eq!(public.fingerprint, s.fingerprint);
    assert_eq!(s.fingerprint.len(), 64);
}

#[test]
fn status_record_fields() {
    let id = Identity::from_seeds([1; 32], [2; 32]);
    let status = status_record(&id, DiscoveryId::from_bytes([5; 16]));
    assert_eq!(status.user_id, id.user_id().as_bytes().to_vec());
    assert_eq!(status.discovery_id, vec![5; 16]);
    assert_eq!(status.fingerprint, "65cfd6e6e6236071241cbfdf7dfeb0920912879ad9c9d43c633c22ded54f4a83");
}

#[test]
fn events_and_actions_convert() {
    match to_core_event(MeshEvent::PeerDiscovered { peer_token: vec![1], discovery_id: vec![4; 16] }).unwrap() {
        CoreEvent::PeerDiscovered { peer_token, discovery_id } => {
            assert_eq!(peer_token, vec![1]);
            assert_eq!(discovery_id, DiscoveryId::from_bytes([4; 16]));
        },
        _ => panic!("wrong event"),
    }
    assert!(matches!(
        to_core_event(MeshEvent::PeerDiscovered { peer_token: vec![], discovery_id: vec![4; 3] }),
        Err(MeshError::InvalidIdentifier)
    ));
    assert!(matches!(
        to_core_event(MeshEvent::LinkClosed { link_id: 9 }).unwrap(),
        CoreEvent::LinkClosed { link_id: LinkId(9) }
    ));
    assert!(matches!(to_core_event(MeshEvent::Tick { now_ms: -4 }).unwrap(), CoreEvent::Tick { now_ms: -4 }));
    let id = BundleId::from_bytes([6; 16]);
    assert_eq!(
        from_core_action(CoreAction::BundleReadyForPeer { link_id: LinkId(3), bundle_id: id }),
        MeshAction::BundleReadyForPeer { link_id: 3, bundle_id: vec![6; 16] }
    );
    assert_eq!(
        from_core_action(CoreAction::Log { code: "X".to_owned() }),
        MeshAction::Log { code: "X".to_owned() }
    );
    assert_eq!(
        from_core_action(CoreAction::BundleStored { bundle_id: id }),
        MeshAction::BundleStored { bundle_id: vec![6; 16] }
    );
}
