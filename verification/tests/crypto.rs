use mesh::bundle::{ImmutableBundleHeader, RelayHeader, WireBundle, PROTOCOL_MAJOR, PROTOCOL_MINOR};
use mesh::crypto::identity::{conversation_id, derive_user_id, fingerprint, verify_signature, Identity, PublicIdentity};
use mesh::crypto::message::{open_local, open_message, seal_local, seal_message, seal_message_with};
use mesh::crypto::primitives::CryptoError;
use mesh::crypto::session::{
    derive_session_keys, handshake_transcript, open_session, seal_session, session_nonce, EphemeralSecret,
};
use mesh::direct_message::{DirectMessagePayload, DIRECT_MESSAGE_VERSION};
use mesh::sealed::SealedPayload;
use mesh::types::{BundleId, BundleType, ConversationId, MessageId, Priority, UserId};

fn seed(start: u8) -> [u8; 32] {
    let mut bytes = [0u8; 32];
    for (i, slot) in bytes.iter_mut().enumerate() {
        *slot = start.wrapping_add(i as u8);
    }
    bytes
}

fn unhex(s: &str) -> Vec<u8> {
    hex::decode(s).unwrap()
}

#[test]
fn user_id_derivation_is_stable() {
    let a = derive_user_id(b"test-public-key");
    let b = derive_user_id(b"test-public-key");
    assert_eq!(a, b);
}

#[test]
fn conversation_id_is_order_independent() {
    let a = UserId::from_bytes([1; 16]);
    let b = UserId::from_bytes([2; 16]);
    assert_eq!(conversation_id(a, b), conversation_id(b, a));
    assert_ne!(conversation_id(a, b), conversation_id(a, a));
}

#[test]
fn round_trip_and_wrong_recipient() {
    let alice = Identity::from_seeds([0x11; 32], [0x21; 32]);
    let bob = Identity::from_seeds([0x12; 32], [0x22; 32]);
    let charlie = Identity::from_seeds([0x13; 32], [0x23; 32]);
    let sealed = seal_message_with(bob.encryption_public(), b"Are you safe?", [0x80; 32], [0xa0; 12]).unwrap();
    assert_eq!(open_message(&bob, &sealed).unwrap(), b"Are you safe?");
    assert_eq!(open_message(&alice, &sealed), Err(CryptoError::DecryptionFailed));
    assert_eq!(open_message(&charlie, &sealed), Err(CryptoError::DecryptionFailed));
}

#[test]
fn session_keys_match_and_round_trip() {
    let a = EphemeralSecret::from_seed([0x11; 32]);
    let b = EphemeralSecret::from_seed([0x22; 32]);
    let shared_a = a.shared_secret(&b.public_bytes());
    let shared_b = b.shared_secret(&a.public_bytes());
    assert_eq!(shared_a, shared_b);
    let transcript = handshake_transcript(b"hello-lo", b"hello-hi", &a.public_bytes(), &b.public_bytes());
    let keys_a = derive_session_keys(&shared_a, &transcript, true).unwrap();
    let keys_b = derive_session_keys(&shared_b, &transcript, false).unwrap();
    assert_eq!(keys_a.tx, keys_b.rx);
    assert_eq!(keys_a.rx, keys_b.tx);
    let ciphertext = seal_session(&keys_a.tx, 0, b"aad", b"frame").unwrap();
    assert_eq!(open_session(&keys_b.rx, 0, b"aad", &ciphertext).unwrap(), b"frame");
    assert!(open_session(&keys_b.rx, 1, b"aad", &ciphertext).is_err());
}

#[test]
fn signed_encrypted_bundle_is_only_readable_by_recipient() {
    let alice = Identity::from_seeds(seed(0x00), seed(0x20));
    let bob = Identity::from_seeds(seed(0x40), seed(0x60));
    let charlie = Identity::from_seeds(seed(0xc0), seed(0xe0));

    let payload = DirectMessagePayload {
        version: DIRECT_MESSAGE_VERSION,
        message_id: MessageId::from_bytes([0x10; 16]),
        conversation_id: conversation_id(alice.user_id(), bob.user_id()),
        sender_id: alice.user_id(),
        recipient_id: bob.user_id(),
        sequence: 1,
        sent_at_ms: 1_700_000_000_000,
        content_type: "text/plain".into(),
        content: b"Are you safe?".to_vec(),
    };
    let plaintext = payload.encode_cbor();
    let sealed = seal_message_with(
        bob.encryption_public(),
        &plaintext,
        seed(0x80),
        [0xa0, 0xa1, 0xa2, 0xa3, 0xa4, 0xa5, 0xa6, 0xa7, 0xa8, 0xa9, 0xaa, 0xab],
    )
    .unwrap();
    let encrypted_payload = SealedPayload {
        ephemeral_public: sealed.ephemeral_public,
        nonce: sealed.nonce,
        ciphertext: sealed.ciphertext.clone(),
    }
    .encode_cbor();

    let mut bundle = WireBundle {
        immutable: ImmutableBundleHeader {
            protocol_major: PROTOCOL_MAJOR,
            protocol_minor: PROTOCOL_MINOR,
            bundle_id: BundleId::from_bytes([0x31; 16]),
            bundle_type: BundleType::DirectMessage,
            sender_id: alice.user_id(),
            destination_id: bob.user_id(),
            created_at_ms: 1_700_000_000_000,
            ttl_seconds: 60,
            hop_limit: 20,
            priority: Priority::Normal,
            payload_length: encrypted_payload.len() as u32,
        },
        relay: RelayHeader { hop_count: 0, received_at_ms: 1_700_000_000_000 },
        encrypted_payload,
        sender_signature: vec![0; 64],
    };
    bundle.sender_signature = alice.sign(&bundle.signed_bytes().unwrap()).to_vec();

    verify_signature(
        alice.signing_public(),
        &bundle.signed_bytes().unwrap(),
        bundle.sender_signature.as_slice().try_into().unwrap(),
    )
    .unwrap();

    bundle.relay.hop_count = 4;
    verify_signature(
        alice.signing_public(),
        &bundle.signed_bytes().unwrap(),
        bundle.sender_signature.as_slice().try_into().unwrap(),
    )
    .unwrap();

    let opened = open_message(&bob, &sealed).unwrap();
    let decoded = DirectMessagePayload::decode_cbor(&opened).unwrap();
    assert_eq!(decoded.content, b"Are you safe?");
    assert_eq!(
        decoded.conversation_id,
        ConversationId::from_bytes(*conversation_id(bob.user_id(), alice.user_id()).as_bytes())
    );
    assert!(open_message(&charlie, &sealed).is_err());

    bundle.encrypted_payload[0] ^= 1;
    assert!(verify_signature(
        alice.signing_public(),
        &bundle.signed_bytes().unwrap(),
        bundle.sender_signature.as_slice().try_into().unwrap(),
    )
    .is_err());
}

// ---------------------------------------------------------------------------
// Exact values of the primitives (computed independently)
// ---------------------------------------------------------------------------

#[test]
fn sha256_user_id_vector() {
    let id = derive_user_id(b"test-public-key");
    assert_eq!(id.as_bytes().to_vec(), unhex("c88e80202a4d650841e48649b4c3f553"));
}

#[test]
fn identity_keys_vector() {
    let id = Identity::from_seeds([1; 32], [2; 32]);
    assert_eq!(
        id.signing_public().to_vec(),
        unhex("8a88e3dd7409f195fd52db2d3cba5d72ca6709bf1d94121bf3748801b40f6f5c")
    );
    assert_eq!(
        id.encryption_public().to_vec(),
        unhex("ce8d3ad1ccb633ec7b70c17814a5c76ecd029685050d344745ba05870e587d59")
    );
    assert_eq!(id.user_id().as_bytes().to_vec(), unhex("34750f98bd59fcfc946da45aaabe933b"));
    assert_eq!(
        id.fingerprint().to_vec(),
        unhex("65cfd6e6e6236071241cbfdf7dfeb0920912879ad9c9d43c633c22ded54f4a83")
    );
    assert_eq!(fingerprint(id.signing_public(), id.encryption_public()), id.fingerprint());
    let public = id.public_identity();
    assert_eq!(public.user_id, id.user_id());
    assert_eq!(public.fingerprint(), id.fingerprint());
}

#[test]
fn signature_vector_and_refusals() {
    let id = Identity::from_seeds([1; 32], [2; 32]);
    let sig = id.sign(b"mesh-signed-bytes-v1");
    assert_eq!(
        sig.to_vec(),
        unhex("edb68ce61909eee25925d1625f2ba813dc6c406fdbefe3910660dcc87cae7b8965f58712bf7194f19a12ca11c799b4b99263bb556139c2a301975a081cdf800b")
    );
    assert!(verify_signature(id.signing_public(), b"mesh-signed-bytes-v1", &sig).is_ok());
    assert_eq!(
        verify_signature(id.signing_public(), b"mesh-signed-bytes-v2", &sig),
        Err(CryptoError::InvalidSignature)
    );
    // y = 2 is not on the curve
    let mut not_a_point = [0u8; 32];
    not_a_point[0] = 2;
    assert_eq!(verify_signature(&not_a_point, b"x", &sig), Err(CryptoError::InvalidPublicKey));
    assert_eq!(PublicIdentity::new(not_a_point, [0; 32]), Err(CryptoError::InvalidPublicKey));
    let p = PublicIdentity::new(*id.signing_public(), *id.encryption_public()).unwrap();
    assert_eq!(p.user_id, id.user_id());
}

#[test]
fn conversation_id_vector() {
    let c = conversation_id(UserId::from_bytes([2; 16]), UserId::from_bytes([1; 16]));
    assert_eq!(c.as_bytes().to_vec(), unhex("f03f702d6016a19c16ff011ea60a8f81"));
}

#[test]
fn message_seal_vector() {
    let bob = Identity::from_seeds([0x12; 32], [0x22; 32]);
    let sealed = seal_message_with(bob.encryption_public(), b"Are you safe?", [0x80; 32], [0xa0; 12]).unwrap();
    assert_eq!(
        sealed.ephemeral_public.to_vec(),
        unhex("c84a0f784d9723c28577272ff700d42b6c923c23f5bdd38e933ac77d6ceb9157")
    );
    assert_eq!(sealed.nonce, [0xa0; 12]);
    assert_eq!(sealed.ciphertext, unhex("24b8f8db8d0fcded33d458662335854dcc6ea56e1901ae54e57e2519b4"));
}

#[test]
fn random_seal_opens_for_recipient() {
    let bob = Identity::from_seeds([0x12; 32], [0x22; 32]);
    let a = seal_message(bob.encryption_public(), b"hi").unwrap();
    let b = seal_message(bob.encryption_public(), b"hi").unwrap();
    assert_ne!(a.ephemeral_public, b.ephemeral_public);
    assert_eq!(open_message(&bob, &a).unwrap(), b"hi");
    assert_eq!(open_message(&bob, &b).unwrap(), b"hi");
}

#[test]
fn session_vectors() {
    let a = EphemeralSecret::from_seed([0x11; 32]);
    let b = EphemeralSecret::from_seed([0x22; 32]);
    assert_eq!(
        a.public_bytes().to_vec(),
        unhex("7b4e909bbe7ffe44c465a220037d608ee35897d31ef972f07f74892cb0f73f13")
    );
    let shared = a.shared_secret(&b.public_bytes());
    assert_eq!(shared.to_vec(), unhex("9e004098efc091d4ec2663b4e9f5cfd4d7064571690b4bea97ab146ab9f35056"));
    let transcript = handshake_transcript(b"hello-lo", b"hello-hi", &a.public_bytes(), &b.public_bytes());
    assert_eq!(transcript.len(), 16 + 64);
    let keys = derive_session_keys(&shared, &transcript, true).unwrap();
    assert_eq!(keys.tx.to_vec(), unhex("8ffa28911c0caf8e87de79cf7126b2170655a39aec9dbd28e6e2e76d5fc8d6f3"));
    assert_eq!(keys.rx.to_vec(), unhex("5f611992859d5aa44a43af339032610ed18fd632998ff186a172c4d069cb0485"));
    let ct = seal_session(&keys.tx, 0, b"aad", b"frame").unwrap();
    assert_eq!(ct, unhex("8f6af2d79b9a2659412c2e02a55a734b84da9a5fa8"));
    assert_eq!(open_session(&keys.tx, 0, b"aad2", &ct), Err(CryptoError::DecryptionFailed));
}

#[test]
fn session_nonce_layout() {
    assert_eq!(session_nonce(0x0102030405060708), [0, 0, 0, 0, 1, 2, 3, 4, 5, 6, 7, 8]);
    assert_eq!(session_nonce(0), [0; 12]);
}

#[test]
fn local_data_round_trip() {
    let key = [7u8; 32];
    let nonce = [9u8; 24];
    let ct = seal_local(&key, &nonce, b"at rest").unwrap();
    assert_eq!(ct.len(), 7 + 16);
    assert_eq!(open_local(&key, &nonce, &ct).unwrap(), b"at rest");
    assert_eq!(open_local(&[8u8; 32], &nonce, &ct), Err(CryptoError::DecryptionFailed));
}

#[test]
fn generated_identities_differ() {
    let a = Identity::generate();
    let b = Identity::generate();
    assert_ne!(a.user_id(), b.user_id());
    let e = EphemeralSecret::generate();
    assert_ne!(e.public_bytes(), a.encryption_public().to_owned());
}

#[test]
fn debug_omits_secret_field_names() {
    let id = Identity::from_seeds([1; 32], [2; 32]);
    let rendered = id.debug_string();
    assert!(rendered.contains("Identity"));
    assert!(!rendered.contains("signing"));
    assert!(!rendered.contains("encryption"));
}

#[test]
fn debug_shows_the_user_id_as_a_uuid() {
    let id = Identity::from_seeds([1; 32], [2; 32]);
    let uuid = uuid::Uuid::from_bytes(*id.user_id().as_bytes());
    assert_eq!(id.debug_string(), format!("Identity {{ user_id: UserId({}), .. }}", uuid));
}
