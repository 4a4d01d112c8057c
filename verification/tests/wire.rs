use mesh::bundle::{
    ImmutableBundleHeader, RelayHeader, WireBundle, MAX_TEXT_BUNDLE_BYTES, PROTOCOL_MAJOR, PROTOCOL_MINOR,
    SIGNATURE_LENGTH,
};
use mesh::cbor::{CborReader, CborWriter};
use mesh::control::{
    BundleData, BundleIdPayload, BundleOffer, ErrorPayload, HelloPayload, InventorySummary, KeyPayload,
    CAPABILITY_TEXT,
};
use mesh::direct_message::{DirectMessagePayload, DIRECT_MESSAGE_VERSION};
use mesh::error::WireError;
use mesh::frame::{Frame, FrameType, MAX_FRAME_PAYLOAD};
use mesh::sealed::SealedPayload;
use mesh::types::{BundleId, BundleType, ConversationId, DiscoveryId, MessageId, Priority, UserId};

fn sample_bundle() -> WireBundle {
    let payload = b"ciphertext".to_vec();
    WireBundle {
        immutable: ImmutableBundleHeader {
            protocol_major: PROTOCOL_MAJOR,
            protocol_minor: PROTOCOL_MINOR,
            bundle_id: BundleId::from_bytes([7; 16]),
            bundle_type: BundleType::DirectMessage,
            sender_id: UserId::from_bytes([1; 16]),
            destination_id: UserId::from_bytes([2; 16]),
            created_at_ms: 1_000,
            ttl_seconds: 60,
            hop_limit: 20,
            priority: Priority::Normal,
            payload_length: payload.len() as u32,
        },
        relay: RelayHeader { hop_count: 0, received_at_ms: 1_000 },
        encrypted_payload: payload,
        sender_signature: vec![0; SIGNATURE_LENGTH],
    }
}

fn random_bundle() -> WireBundle {
    let payload = b"ciphertext".to_vec();
    WireBundle {
        immutable: ImmutableBundleHeader {
            protocol_major: PROTOCOL_MAJOR,
            protocol_minor: PROTOCOL_MINOR,
            bundle_id: BundleId::random(),
            bundle_type: BundleType::DirectMessage,
            sender_id: UserId::random(),
            destination_id: UserId::random(),
            created_at_ms: 1_000,
            ttl_seconds: 60,
            hop_limit: 20,
            priority: Priority::Normal,
            payload_length: payload.len() as u32,
        },
        relay: RelayHeader { hop_count: 0, received_at_ms: 1_000 },
        encrypted_payload: payload,
        sender_signature: vec![0; 64],
    }
}

#[test]
fn bundle_cbor_round_trip() {
    let bundle = sample_bundle();
    let encoded = bundle.encode_cbor().unwrap();
    let decoded = WireBundle::decode_cbor(&encoded).unwrap();
    assert_eq!(bundle, decoded);
}

#[test]
fn signed_bytes_start_with_canonical_map11() {
    let bundle = sample_bundle();
    let signed = bundle.signed_bytes().unwrap();
    assert_eq!(signed[0], 0xab);
}

#[test]
fn hop_count_is_outside_signed_bytes() {
    let mut bundle = sample_bundle();
    let before = bundle.signed_bytes().unwrap();
    bundle.relay.hop_count = 9;
    let after = bundle.signed_bytes().unwrap();
    assert_eq!(before, after);
    assert_ne!(bundle.encode_cbor().unwrap()[0], 0);
}

#[test]
fn bundle_expiry_uses_local_first_seen_time() {
    let bundle = sample_bundle();
    assert!(!bundle.is_expired(59_000, 0));
    assert!(bundle.is_expired(60_000, 0));
}

#[test]
fn numeric_keys_are_used() {
    let encoded = sample_bundle().encode_cbor().unwrap();
    assert_eq!(encoded[0], 0xae, "map(14) = 0xAE");
    assert_eq!(encoded[1], 0x01, "key 1");
    assert_eq!(encoded[2], 0x19, "u16 follows for version 0x0100");
    assert_eq!(&encoded[3..5], &[0x01, 0x00]);
}

#[test]
fn lib_cbor_round_trip() {
    let bundle = random_bundle();
    let encoded = bundle.encode_cbor().unwrap();
    let decoded = WireBundle::decode_cbor(&encoded).unwrap();
    assert_eq!(bundle, decoded);
}

#[test]
fn lib_expiry_uses_local_first_seen_time() {
    let bundle = random_bundle();
    assert!(!bundle.is_expired(59_000, 0));
    assert!(bundle.is_expired(60_000, 0));
}

#[test]
fn small_integers_use_shortest_form() {
    let mut w = CborWriter::new();
    w.u64(1);
    w.u64(23);
    w.u64(24);
    w.u64(256);
    assert_eq!(w.into_inner(), vec![0x01, 0x17, 0x18, 0x18, 0x19, 0x01, 0x00]);
}

#[test]
fn map_header_for_eleven_entries_is_canonical() {
    let mut w = CborWriter::new();
    w.map(11);
    assert_eq!(w.into_inner(), vec![0xab]);
}

#[test]
fn rejects_indefinite_maps() {
    let mut r = CborReader::new(&[0xbf]);
    assert!(matches!(r.map(), Err(WireError::IndefiniteCbor)));
}

#[test]
fn hello_round_trip() {
    let hello = HelloPayload {
        protocol_major: 1,
        protocol_minor: 0,
        discovery_id: DiscoveryId::from_bytes([3; 16]),
        session_nonce: [9; 32],
        capabilities: CAPABILITY_TEXT,
        max_frame_size: 65536,
    };
    assert_eq!(HelloPayload::decode(&hello.encode()).unwrap(), hello);
}

#[test]
fn inventory_round_trip() {
    let summary = InventorySummary {
        bundle_ids: vec![BundleId::from_bytes([1; 16]), BundleId::from_bytes([2; 16])],
    };
    assert_eq!(InventorySummary::decode(&summary.encode()).unwrap(), summary);
}

#[test]
fn direct_message_round_trip() {
    let payload = DirectMessagePayload {
        version: DIRECT_MESSAGE_VERSION,
        message_id: MessageId::from_bytes([1; 16]),
        conversation_id: ConversationId::from_bytes([2; 16]),
        sender_id: UserId::from_bytes([3; 16]),
        recipient_id: UserId::from_bytes([4; 16]),
        sequence: 7,
        sent_at_ms: 99,
        content_type: "text/plain".into(),
        content: b"Are you safe?".to_vec(),
    };
    let encoded = payload.encode_cbor();
    assert_eq!(encoded[0], 0xa9);
    assert_eq!(DirectMessagePayload::decode_cbor(&encoded).unwrap(), payload);
}

#[test]
fn frame_round_trip() {
    let frame = Frame::cleartext(FrameType::Hello, b"hi".to_vec());
    let encoded = frame.encode().unwrap();
    assert_eq!(&encoded[..2], &[0x4D, 0x50]);
    assert_eq!(Frame::decode(&encoded).unwrap(), frame);
}

#[test]
fn rejects_bad_magic() {
    let mut encoded = Frame::cleartext(FrameType::Hello, vec![]).encode().unwrap();
    encoded[0] = 0;
    assert!(matches!(Frame::decode(&encoded), Err(WireError::InvalidMagic)));
}

#[test]
fn sealed_payload_round_trip() {
    let sealed = SealedPayload { ephemeral_public: [3; 32], nonce: [4; 12], ciphertext: vec![9, 8, 7] };
    let encoded = sealed.encode_cbor();
    assert_eq!(encoded[0], 0xa3);
    assert_eq!(SealedPayload::decode_cbor(&encoded).unwrap(), sealed);
}

// ---------------------------------------------------------------------------
// Further cases
// ---------------------------------------------------------------------------

#[test]
fn negative_integers_and_text_encode_canonically() {
    let mut w = CborWriter::new();
    w.i64(-1);
    w.i64(-25);
    w.text("hi");
    w.bytes(&[1, 2]);
    assert_eq!(w.into_inner(), vec![0x20, 0x38, 0x18, 0x62, b'h', b'i', 0x42, 1, 2]);
}

#[test]
fn reader_reads_back_what_writer_wrote() {
    let mut w = CborWriter::new();
    w.map(2);
    w.u64(70000);
    w.i64(-300);
    let bytes = w.into_inner();
    let mut r = CborReader::new(&bytes);
    assert_eq!(r.map().unwrap(), 2);
    assert_eq!(r.u64().unwrap(), 70000);
    assert_eq!(r.i64().unwrap(), -300);
    assert!(r.finish().is_ok());
}

#[test]
fn reader_rejects_truncation_and_trailing_bytes() {
    let mut r = CborReader::new(&[0x19, 0x01]);
    assert!(matches!(r.u64(), Err(WireError::TruncatedCbor)));
    let mut r = CborReader::new(&[0x01, 0x02]);
    assert_eq!(r.u64().unwrap(), 1);
    assert!(matches!(r.finish(), Err(WireError::TrailingCbor)));
    let mut r = CborReader::new(&[0x01]);
    assert!(matches!(r.map(), Err(WireError::UnexpectedCborType)));
}

#[test]
fn reader_skips_nested_values() {
    // [1, {2: h'00'}, "x"] then 5
    let bytes = [0x83, 0x01, 0xa1, 0x02, 0x41, 0x00, 0x61, b'x', 0x05];
    let mut r = CborReader::new(&bytes);
    r.skip_value().unwrap();
    assert_eq!(r.u64().unwrap(), 5);
}

#[test]
fn invalid_utf8_text_is_refused() {
    let bytes = [0x62, 0xff, 0xfe];
    let mut r = CborReader::new(&bytes);
    assert!(matches!(r.text(), Err(WireError::InvalidUtf8)));
}

#[test]
fn shape_errors_are_reported_in_order() {
    let mut b = sample_bundle();
    b.immutable.protocol_major = 2;
    assert!(matches!(b.validate_shape(), Err(WireError::UnsupportedMajorVersion(2))));
    let mut b = sample_bundle();
    b.immutable.payload_length = 3;
    assert!(matches!(b.encode_cbor(), Err(WireError::PayloadLengthMismatch)));
    let mut b = sample_bundle();
    b.encrypted_payload = vec![0; MAX_TEXT_BUNDLE_BYTES + 1];
    b.immutable.payload_length = (MAX_TEXT_BUNDLE_BYTES + 1) as u32;
    assert!(matches!(b.validate_shape(), Err(WireError::BundleTooLarge)));
    let mut b = sample_bundle();
    b.immutable.hop_limit = 0;
    assert!(matches!(b.signed_bytes(), Err(WireError::InvalidHopLimit)));
    let mut b = sample_bundle();
    b.sender_signature = vec![0; 63];
    assert!(matches!(b.validate_shape(), Err(WireError::InvalidSignatureLength)));
}

#[test]
fn decode_refuses_bad_bundles() {
    assert!(matches!(WireBundle::decode_cbor(&[]), Err(WireError::TruncatedCbor)));
    let too_long = vec![0u8; MAX_TEXT_BUNDLE_BYTES + 4097];
    assert!(matches!(WireBundle::decode_cbor(&too_long), Err(WireError::BundleTooLarge)));
    let mut encoded = sample_bundle().encode_cbor().unwrap();
    encoded.push(0);
    assert!(matches!(WireBundle::decode_cbor(&encoded), Err(WireError::TrailingCbor)));
}

#[test]
fn relay_fields_travel_but_are_not_signed() {
    let mut b = sample_bundle();
    b.relay = RelayHeader { hop_count: 3, received_at_ms: -5 };
    let decoded = WireBundle::decode_cbor(&b.encode_cbor().unwrap()).unwrap();
    assert_eq!(decoded.relay, b.relay);
    assert_eq!(b.signed_bytes().unwrap(), sample_bundle().signed_bytes().unwrap());
    assert_eq!(b.protocol_version(), 0x0100);
}

#[test]
fn expiry_saturates_far_in_the_past() {
    let b = sample_bundle();
    assert!(b.is_expired(i64::MAX, i64::MIN));
    assert!(!b.is_expired(i64::MIN, i64::MAX));
}

#[test]
fn frame_errors() {
    assert!(matches!(Frame::decode(&[0x4D, 0x50, 1]), Err(WireError::TruncatedFrame)));
    let mut encoded = Frame::encrypted(FrameType::BundleData, vec![1, 2, 3]).encode().unwrap();
    assert!(Frame::decode(&encoded).unwrap().is_encrypted());
    encoded[4] = 0x55;
    assert!(matches!(Frame::decode(&encoded), Err(WireError::UnknownFrameType(0x55))));
    encoded[2] = 2;
    assert!(matches!(Frame::decode(&encoded), Err(WireError::UnsupportedMajorVersion(2))));
    let big = Frame::cleartext(FrameType::BundleData, vec![0; MAX_FRAME_PAYLOAD + 1]);
    assert!(matches!(big.encode(), Err(WireError::FrameTooLarge)));
    assert_eq!(FrameType::from_code(0x7F).unwrap(), FrameType::ErrorFrame);
    assert_eq!(FrameType::SessionOk.code(), 0x04);
}

#[test]
fn control_payloads_round_trip() {
    let key = KeyPayload { ephemeral_public: [5; 32] };
    assert_eq!(KeyPayload::decode(&key.encode()).unwrap(), key);
    let offer = BundleOffer {
        bundle_id: BundleId::from_bytes([6; 16]),
        bundle_type: BundleType::DeliveryAck,
        destination_id: UserId::from_bytes([7; 16]),
        size: 1234,
        priority: Priority::Emergency,
        hop_count: 2,
    };
    assert_eq!(BundleOffer::decode(&offer.encode()).unwrap(), offer);
    let id = BundleIdPayload { bundle_id: BundleId::from_bytes([8; 16]) };
    assert_eq!(BundleIdPayload::decode(&id.encode()).unwrap(), id);
    let data = BundleData { bundle_id: BundleId::from_bytes([9; 16]), offset: 1024, data: vec![1, 2, 3] };
    assert_eq!(BundleData::decode(&data.encode()).unwrap(), data);
    let err = ErrorPayload { code: 1 };
    assert_eq!(err.encode(), vec![0xa1, 0x01, 0x01]);
    assert_eq!(ErrorPayload::decode(&err.encode()).unwrap(), err);
}

#[test]
fn control_payload_errors() {
    // KEY with a short key
    let mut w = CborWriter::new();
    w.map(1);
    w.u64(1);
    w.bytes(&[1, 2, 3]);
    assert!(matches!(KeyPayload::decode(&w.into_inner()), Err(WireError::InvalidControlPayload)));
    // empty map: missing field 1
    assert!(matches!(BundleIdPayload::decode(&[0xa0]), Err(WireError::MissingField(1))));
    // a repeated key: the later value stands
    let mut w = CborWriter::new();
    w.map(2);
    w.u64(1);
    w.u64(1);
    w.u64(1);
    w.u64(2);
    assert_eq!(ErrorPayload::decode(&w.into_inner()).unwrap(), ErrorPayload { code: 2 });
}

#[test]
fn direct_message_and_sealed_errors() {
    assert!(matches!(DirectMessagePayload::decode_cbor(&[0xa0]), Err(WireError::MissingField(1))));
    let mut w = CborWriter::new();
    w.map(1);
    w.u64(1);
    w.bytes(&[0; 31]);
    assert!(matches!(SealedPayload::decode_cbor(&w.into_inner()), Err(WireError::InvalidSealedPayload)));
}

#[test]
fn bundle_type_and_priority_codes() {
    assert_eq!(BundleType::Control.code(), 0x04);
    assert_eq!(Priority::Emergency.code(), 3);
    assert_eq!(Priority::default(), Priority::Normal);
}

#[test]
fn offer_with_unknown_bundle_type_is_refused() {
    let offer = BundleOffer {
        bundle_id: BundleId::from_bytes([6; 16]),
        bundle_type: BundleType::DirectMessage,
        destination_id: UserId::from_bytes([7; 16]),
        size: 10,
        priority: Priority::Normal,
        hop_count: 0,
    };
    let mut encoded = offer.encode();
    assert_eq!(encoded[19], 0x02);
    assert_eq!(encoded[20], 0x01);
    encoded[20] = 0x03;
    assert!(matches!(BundleOffer::decode(&encoded), Err(WireError::InvalidBundleType(3))));
}

#[test]
fn any_trailing_byte_after_a_bundle_is_refused() {
    let encoded = sample_bundle().encode_cbor().unwrap();
    for x in [0u8, 0x01, 0xa0, 0xff] {
        let mut longer = encoded.clone();
        longer.push(x);
        assert!(matches!(WireBundle::decode_cbor(&longer), Err(WireError::TrailingCbor)));
    }
}

#[test]
fn encoded_bundle_is_signed_bytes_then_relay_fields() {
    let mut b = sample_bundle();
    b.sender_signature = (0..64u8).collect();
    b.relay = RelayHeader { hop_count: 300, received_at_ms: -2 };
    let encoded = b.encode_cbor().unwrap();
    let signed = b.signed_bytes().unwrap();
    let mut expected = vec![0xae];
    expected.extend_from_slice(&signed[1..]);
    expected.extend_from_slice(&[0x0c, 0x58, 0x40]);
    expected.extend_from_slice(&b.sender_signature);
    expected.extend_from_slice(&[0x14, 0x19, 0x01, 0x2c]);
    expected.extend_from_slice(&[0x15, 0x21]);
    assert_eq!(encoded, expected);
}

#[test]
fn changing_the_payload_or_header_changes_the_signed_bytes() {
    let a = sample_bundle();
    let mut b = sample_bundle();
    b.encrypted_payload[0] ^= 1;
    assert_ne!(a.signed_bytes().unwrap(), b.signed_bytes().unwrap());
    let mut c = sample_bundle();
    c.immutable.ttl_seconds = 61;
    assert_ne!(a.signed_bytes().unwrap(), c.signed_bytes().unwrap());
}

#[test]
fn skipping_consumes_exactly_one_item() {
    // tag 1 over [-1, "ab", {1: h'0102', 2: true}, [], null], then 7
    let item = [
        0xc1, 0x85, 0x20, 0x62, b'a', b'b', 0xa2, 0x01, 0x42, 0x01, 0x02, 0x02, 0xf5, 0x80, 0xf6,
    ];
    let mut r = CborReader::new(&item);
    r.skip_value().unwrap();
    assert!(r.finish().is_ok());
    let mut longer = item.to_vec();
    longer.push(0x07);
    let mut r = CborReader::new(&longer);
    r.skip_value().unwrap();
    assert_eq!(r.u64().unwrap(), 7);
    assert!(r.finish().is_ok());
}

#[test]
fn skipping_accepts_longer_heads() {
    // [1 (head in 2 bytes), "a" (length in 2 bytes), tag 2 (in 1 byte) over 0xf5 (in 2 bytes)]
    // with the array length in one byte, then 5
    let bytes = [
        0x98, 0x03, 0x19, 0x00, 0x01, 0x79, 0x00, 0x01, b'a', 0xd8, 0x02, 0xf8, 0x15, 0x05,
    ];
    let mut r = CborReader::new(&bytes);
    r.skip_value().unwrap();
    assert_eq!(r.u64().unwrap(), 5);
    assert!(r.finish().is_ok());
}
