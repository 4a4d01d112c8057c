use mesh::control::{BundleData, BundleOffer, HelloPayload, CAPABILITY_TEXT};
use mesh::frame::{Frame, FrameType};
use mesh::mesh_core::CoreError;
use mesh::session::{MeshSession, SessionEvent};
use mesh::types::{BundleId, BundleType, DiscoveryId, LinkId, Priority, UserId};

fn sent(events: Vec<SessionEvent>) -> Vec<Frame> {
    events
        .into_iter()
        .map(|e| match e {
            SessionEvent::Send(f) => f,
            _ => panic!("expected only frames to send"),
        })
        .collect()
}

/// Runs the handshake between a lower (A) and a higher (B) discovery id.
fn handshake() -> (MeshSession, MeshSession) {
    let (mut a, hello_a) = MeshSession::open_with(LinkId(1), b"b".to_vec(), DiscoveryId::from_bytes([1; 16]), [5; 32]);
    let (mut b, hello_b) = MeshSession::open_with(LinkId(2), b"a".to_vec(), DiscoveryId::from_bytes([2; 16]), [6; 32]);
    let key_init = sent(a.handle_frame_with(hello_b, [0x11; 32]).unwrap());
    assert_eq!(key_init.len(), 1);
    assert_eq!(key_init[0].ty, FrameType::KeyInit);
    assert!(b.handle_frame_with(hello_a, [0x99; 32]).unwrap().is_empty());
    let replies = sent(b.handle_frame_with(key_init[0].clone(), [0x22; 32]).unwrap());
    assert_eq!(replies.len(), 2);
    assert_eq!(replies[0].ty, FrameType::KeyReply);
    assert_eq!(replies[1].ty, FrameType::SessionOk);
    assert!(replies[1].is_encrypted());
    let a_ok = sent(a.handle_frame_with(replies[0].clone(), [0x33; 32]).unwrap());
    assert_eq!(a_ok.len(), 1);
    let established_a = a.handle_frame_with(replies[1].clone(), [0x44; 32]).unwrap();
    assert!(matches!(established_a.as_slice(), [SessionEvent::Established]));
    let established_b = b.handle_frame_with(a_ok[0].clone(), [0x55; 32]).unwrap();
    assert!(matches!(established_b.as_slice(), [SessionEvent::Established]));
    (a, b)
}

#[test]
fn handshake_then_encrypted_transfer() {
    let (mut a, mut b) = handshake();
    assert!(a.is_secure() && b.is_secure());
    let offer = BundleOffer {
        bundle_id: BundleId::from_bytes([7; 16]),
        bundle_type: BundleType::DirectMessage,
        destination_id: UserId::from_bytes([8; 16]),
        size: 5,
        priority: Priority::High,
        hop_count: 1,
    };
    let frame = a.encrypt(FrameType::BundleOffer, offer.encode()).unwrap();
    let events = b.handle_frame(frame).unwrap();
    match events.as_slice() {
        [SessionEvent::Offer(o)] => assert_eq!(*o, offer),
        _ => panic!("expected an offer"),
    }
    // and back the other way
    let reply = b.encrypt(FrameType::InventoryRequest, vec![0xa0]).unwrap();
    assert!(a.handle_frame(reply).unwrap().is_empty());
    // a replayed frame is refused: the receive counter has moved on
    let again = a.encrypt(FrameType::InventoryRequest, vec![0xa0]).unwrap();
    assert!(b.handle_frame(again.clone()).is_ok());
    assert!(matches!(b.handle_frame(again), Err(CoreError::Crypto(_))));
}

#[test]
fn cleartext_after_keys_is_refused() {
    let (mut a, _b) = handshake();
    let stray = Frame::cleartext(FrameType::Hello, vec![0xa0]);
    assert!(matches!(a.handle_frame(stray), Err(CoreError::Session)));
}

#[test]
fn error_frame_closes() {
    let (mut a, _) = MeshSession::open_with(LinkId(1), vec![], DiscoveryId::from_bytes([1; 16]), [0; 32]);
    let events = a.handle_frame(Frame::cleartext(FrameType::ErrorFrame, vec![0xa1, 0x01, 0x01])).unwrap();
    assert!(matches!(events.as_slice(), [SessionEvent::Close]));
    assert!(matches!(a.handle_frame(Frame::cleartext(FrameType::Hello, vec![])), Err(CoreError::Session)));
}

#[test]
fn other_major_version_is_answered_with_error_and_close() {
    let (mut a, _) = MeshSession::open_with(LinkId(1), vec![], DiscoveryId::from_bytes([1; 16]), [0; 32]);
    let hello = HelloPayload {
        protocol_major: 2,
        protocol_minor: 0,
        discovery_id: DiscoveryId::from_bytes([2; 16]),
        session_nonce: [0; 32],
        capabilities: CAPABILITY_TEXT,
        max_frame_size: 65536,
    };
    let events = a.handle_frame(Frame::cleartext(FrameType::Hello, hello.encode())).unwrap();
    match events.as_slice() {
        [SessionEvent::Send(f), SessionEvent::Close] => {
            assert_eq!(f.ty, FrameType::ErrorFrame);
            assert_eq!(f.payload, vec![0xa1, 0x01, 0x01]);
        },
        _ => panic!("expected an error frame and close"),
    }
}

#[test]
fn own_discovery_id_is_refused_and_frame_limit_negotiated() {
    let (mut a, _) = MeshSession::open_with(LinkId(1), vec![], DiscoveryId::from_bytes([3; 16]), [0; 32]);
    assert_eq!(a.plaintext_chunk_size(), 131072 - 16 - 64);
    let mut hello = HelloPayload {
        protocol_major: 1,
        protocol_minor: 0,
        discovery_id: DiscoveryId::from_bytes([3; 16]),
        session_nonce: [0; 32],
        capabilities: CAPABILITY_TEXT,
        max_frame_size: 65536,
    };
    assert!(matches!(a.handle_frame(Frame::cleartext(FrameType::Hello, hello.encode())), Err(CoreError::Session)));
    hello.discovery_id = DiscoveryId::from_bytes([1; 16]);
    // the other side is lower: wait for its KEY_INIT
    assert!(a.handle_frame(Frame::cleartext(FrameType::Hello, hello.encode())).unwrap().is_empty());
    assert_eq!(a.plaintext_chunk_size(), 65536 - 16 - 64);
    // a second HELLO is refused
    assert!(matches!(a.handle_frame(Frame::cleartext(FrameType::Hello, hello.encode())), Err(CoreError::Session)));
    // a tiny frame limit still allows 1024-byte chunks
    let (mut c, _) = MeshSession::open_with(LinkId(1), vec![], DiscoveryId::from_bytes([0; 16]), [0; 32]);
    hello.max_frame_size = 10;
    assert_eq!(c.handle_frame(Frame::cleartext(FrameType::Hello, hello.encode())).unwrap().len(), 1);
    assert_eq!(c.plaintext_chunk_size(), 1024);
}

#[test]
fn encrypt_needs_keys() {
    let (mut a, _) = MeshSession::open(LinkId(1), vec![], DiscoveryId::from_bytes([3; 16]));
    assert!(matches!(a.encrypt(FrameType::BundleData, vec![1]), Err(CoreError::Session)));
    let enc = Frame::encrypted(FrameType::BundleData, vec![1, 2, 3]);
    assert!(matches!(a.handle_frame(enc), Err(CoreError::Session)));
}

#[test]
fn session_ok_only_once() {
    let (mut a, mut b) = handshake();
    let extra = a.encrypt(FrameType::SessionOk, vec![0xa0]).unwrap();
    assert!(matches!(b.handle_frame(extra), Err(CoreError::Session)));
    let data = BundleData { bundle_id: BundleId::from_bytes([7; 16]), offset: 0, data: vec![1, 2] };
    let frame = a.encrypt(FrameType::BundleData, data.encode()).unwrap();
    match b.handle_frame(frame).unwrap().as_slice() {
        [SessionEvent::Data(d)] => assert_eq!(*d, data),
        _ => panic!("expected data"),
    }
}

#[test]
fn bundles_are_reassembled_in_order() {
    let (mut s, _) = MeshSession::open_with(LinkId(1), vec![], DiscoveryId::from_bytes([3; 16]), [0; 32]);
    let id = BundleId::from_bytes([7; 16]);
    s.note_offer(&BundleOffer {
        bundle_id: id,
        bundle_type: BundleType::DirectMessage,
        destination_id: UserId::from_bytes([8; 16]),
        size: 5,
        priority: Priority::Normal,
        hop_count: 0,
    });
    let first = BundleData { bundle_id: id, offset: 0, data: b"abc".to_vec() };
    assert_eq!(s.append_data(&first).unwrap(), None);
    let wrong = BundleData { bundle_id: id, offset: 2, data: b"x".to_vec() };
    assert!(matches!(s.append_data(&wrong), Err(CoreError::Session)));
    let second = BundleData { bundle_id: id, offset: 3, data: b"de".to_vec() };
    assert_eq!(s.append_data(&second).unwrap(), Some(b"abcde".to_vec()));
    // the buffer and offer are gone: a new chunk starts afresh, with no offer
    let again = BundleData { bundle_id: id, offset: 0, data: b"zz".to_vec() };
    assert_eq!(s.append_data(&again).unwrap(), None);
}

#[test]
fn peer_context_reflects_inventory() {
    let (mut s, _) = MeshSession::open_with(LinkId(1), vec![], DiscoveryId::from_bytes([3; 16]), [0; 32]);
    let user = UserId::from_bytes([4; 16]);
    s.set_inventory(Some(user), vec![BundleId::from_bytes([1; 16])]);
    s.note_peer_has(BundleId::from_bytes([2; 16]));
    s.note_peer_has(BundleId::from_bytes([2; 16]));
    let p = s.peer_context();
    assert_eq!(p.user_id, Some(user));
    assert_eq!(p.known_bundle_ids, vec![BundleId::from_bytes([1; 16]), BundleId::from_bytes([2; 16])]);
    s.set_known_ids(vec![]);
    assert!(s.peer_context().known_bundle_ids.is_empty());
}
