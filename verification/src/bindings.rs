//! The records and conversions of the native boundary: identity secrets to
//! persist, public identity and status records, and events and actions in
//! plain bytes and integers.
use vstd::prelude::*;
use crate::types::{ConversationId, DiscoveryId, LinkId, UserId, group_id_lemmas};
use crate::mesh_core::{CoreAction, CoreEvent};
use crate::crypto::identity::{Identity, spec_fingerprint};
use crate::crypto::primitives::os_random_32;

verus! {

broadcast use group_id_lemmas;

/// Errors at the native boundary.
#[derive(Debug)]
pub enum MeshError {
    Core(String),
    InvalidIdentifier,
    InvalidKey,
    Closed,
    Poisoned,
}

/// Secrets native code must keep in its key store and pass back on open.
#[derive(Clone, Debug)]
pub struct MeshIdentitySecrets {
    pub user_id: Vec<u8>,
    pub signing_public: Vec<u8>,
    pub encryption_public: Vec<u8>,
    pub fingerprint: String,
    pub signing_seed: Vec<u8>,
    pub encryption_seed: Vec<u8>,
    pub local_data_key: Vec<u8>,
}

#[derive(Clone, Debug, PartialEq, Eq)]
pub struct MeshPublicIdentity {
    pub user_id: Vec<u8>,
    pub signing_public: Vec<u8>,
    pub encryption_public: Vec<u8>,
    pub fingerprint: String,
}

#[derive(Clone, Debug, PartialEq, Eq)]
pub struct MeshContact {
    pub user_id: Vec<u8>,
    pub display_name: String,
    pub signing_public: Vec<u8>,
    pub encryption_public: Vec<u8>,
    pub fingerprint: String,
}

#[derive(Clone, Debug, PartialEq, Eq)]
pub struct MeshConversation {
    pub conversation_id: Vec<u8>,
    pub remote_user_id: Vec<u8>,
    pub created_at_ms: i64,
    pub last_message_at_ms: Option<i64>,
}

#[derive(Clone, Debug, PartialEq, Eq)]
pub enum MeshMessageDirection {
    Outbound,
    Inbound,
}

#[derive(Clone, Debug, PartialEq, Eq)]
pub enum MeshMessageState {
    Queued,
    Relayed,
    Delivered,
    Failed,
}

#[derive(Clone, Debug, PartialEq, Eq)]
pub struct MeshMessage {
    pub message_id: Vec<u8>,
    pub conversation_id: Vec<u8>,
    pub sender_id: Vec<u8>,
    pub recipient_id: Vec<u8>,
    pub direction: MeshMessageDirection,
    pub state: MeshMessageState,
    pub content_type: String,
    pub text: String,
}

#[derive(Clone, Debug, PartialEq, Eq)]
pub struct MeshStatus {
    pub user_id: Vec<u8>,
    pub discovery_id: Vec<u8>,
    pub fingerprint: String,
}

/// An event from native code, with identifiers as bytes and links as numbers.
#[derive(Clone, Debug, PartialEq, Eq)]
pub enum MeshEvent {
    PeerDiscovered { peer_token: Vec<u8>, discovery_id: Vec<u8> },
    PeerLost { peer_token: Vec<u8> },
    LinkOpened { link_id: u64, peer_token: Vec<u8> },
    LinkClosed { link_id: u64 },
    BytesReceived { link_id: u64, data: Vec<u8> },
    Tick { now_ms: i64 },
}

/// An action for native code, with identifiers as bytes and links as numbers.
#[derive(Clone, Debug, PartialEq, Eq)]
pub enum MeshAction {
    Connect { peer_token: Vec<u8> },
    SendBytes { link_id: u64, data: Vec<u8> },
    CloseLink { link_id: u64 },
    BundleStored { bundle_id: Vec<u8> },
    BundleDuplicate { bundle_id: Vec<u8> },
    BundleReadyForPeer { link_id: u64, bundle_id: Vec<u8> },
    MessageUpdated { message_id: Vec<u8> },
    MessageReceived { message_id: Vec<u8> },
    Log { code: String },
}

/// Exactly 32 bytes, as a key; any other length is `InvalidKey`.
pub fn key32(bytes: Vec<u8>) -> (res: Result<[u8; 32], MeshError>)
    ensures
        bytes@.len() == 32 ==> (res matches Ok(k) && k@ == bytes@),
        bytes@.len() != 32 ==> res matches Err(MeshError::InvalidKey),
{
    if bytes.len() != 32 {
        return Err(MeshError::InvalidKey);
    }
    let mut key = [0u8; 32];
    let mut i: usize = 0;
    while i < 32
        invariant
            i <= 32,
            bytes@.len() == 32,
            forall|j: int| 0 <= j < i ==> key@[j] == bytes@[j],
        decreases 32 - i,
    {
        key.set(i, bytes[i]);
        i = i + 1;
    }
    assert(key@ =~= bytes@);
    Ok(key)
}

/// Exactly 16 bytes, as an identifier; any other length is `InvalidIdentifier`.
pub fn id16(bytes: Vec<u8>) -> (res: Result<[u8; 16], MeshError>)
    ensures
        bytes@.len() == 16 ==> (res matches Ok(k) && k@ == bytes@),
        bytes@.len() != 16 ==> res matches Err(MeshError::InvalidIdentifier),
{
    if bytes.len() != 16 {
        return Err(MeshError::InvalidIdentifier);
    }
    let mut id = [0u8; 16];
    let mut i: usize = 0;
    while i < 16
        invariant
            i <= 16,
            bytes@.len() == 16,
            forall|j: int| 0 <= j < i ==> id@[j] == bytes@[j],
        decreases 16 - i,
    {
        id.set(i, bytes[i]);
        i = i + 1;
    }
    assert(id@ =~= bytes@);
    Ok(id)
}

pub fn user_id(bytes: Vec<u8>) -> (res: Result<UserId, MeshError>)
    ensures
        bytes@.len() == 16 ==> (res matches Ok(u) && u@ == bytes@),
        bytes@.len() != 16 ==> res matches Err(MeshError::InvalidIdentifier),
{
    Ok(UserId::from_bytes(id16(bytes)?))
}

pub fn conversation_id_from(bytes: Vec<u8>) -> (res: Result<ConversationId, MeshError>)
    ensures
        bytes@.len() == 16 ==> (res matches Ok(c) && c@ == bytes@),
        bytes@.len() != 16 ==> res matches Err(MeshError::InvalidIdentifier),
{
    Ok(ConversationId::from_bytes(id16(bytes)?))
}

/// The identity of two 32-byte seeds; a seed of another length is `InvalidKey`.
pub fn identity_from_seeds(signing_seed: Vec<u8>, encryption_seed: Vec<u8>) -> (res: Result<Identity, MeshError>)
    ensures
        signing_seed@.len() == 32 && encryption_seed@.len() == 32 ==> (res matches Ok(id) && id.signing_seed()
            == signing_seed@ && id.encryption_seed() == encryption_seed@),
        !(signing_seed@.len() == 32 && encryption_seed@.len() == 32) ==> res matches Err(MeshError::InvalidKey),
{
    let s = key32(signing_seed)?;
    let e = key32(encryption_seed)?;
    Ok(Identity::from_seeds(s, e))
}

/// A native event as a core event: ids must be 16 bytes (else
/// `InvalidIdentifier`); link numbers become link ids.
pub fn to_core_event(event: MeshEvent) -> (res: Result<CoreEvent, MeshError>)
    ensures
        match event {
            MeshEvent::PeerDiscovered { peer_token, discovery_id } => if discovery_id@.len() == 16 {
                res matches Ok(CoreEvent::PeerDiscovered { peer_token: t, discovery_id: d }) && t == peer_token
                    && d@ == discovery_id@
            } else {
                res matches Err(MeshError::InvalidIdentifier)
            },
            MeshEvent::PeerLost { peer_token } => res == Ok::<CoreEvent, MeshError>(CoreEvent::PeerLost { peer_token }),
            MeshEvent::LinkOpened { link_id, peer_token } => res == Ok::<CoreEvent, MeshError>(
                CoreEvent::LinkOpened { link_id: LinkId(link_id), peer_token },
            ),
            MeshEvent::LinkClosed { link_id } => res == Ok::<CoreEvent, MeshError>(
                CoreEvent::LinkClosed { link_id: LinkId(link_id) },
            ),
            MeshEvent::BytesReceived { link_id, data } => res == Ok::<CoreEvent, MeshError>(
                CoreEvent::BytesReceived { link_id: LinkId(link_id), data },
            ),
            MeshEvent::Tick { now_ms } => res == Ok::<CoreEvent, MeshError>(CoreEvent::Tick { now_ms }),
        },
{
    match event {
        MeshEvent::PeerDiscovered { peer_token, discovery_id } => {
            let id = id16(discovery_id)?;
            Ok(CoreEvent::PeerDiscovered { peer_token, discovery_id: DiscoveryId::from_bytes(id) })
        },
        MeshEvent::PeerLost { peer_token } => Ok(CoreEvent::PeerLost { peer_token }),
        MeshEvent::LinkOpened { link_id, peer_token } => Ok(CoreEvent::LinkOpened { link_id: LinkId(link_id), peer_token }),
        MeshEvent::LinkClosed { link_id } => Ok(CoreEvent::LinkClosed { link_id: LinkId(link_id) }),
        MeshEvent::BytesReceived { link_id, data } => Ok(CoreEvent::BytesReceived { link_id: LinkId(link_id), data }),
        MeshEvent::Tick { now_ms } => Ok(CoreEvent::Tick { now_ms }),
    }
}

/// The bytes of a 16-byte identifier, as a vector.
fn id_bytes(bytes: &[u8; 16]) -> (v: Vec<u8>)
    ensures
        v@ == bytes@,
{
    let mut v: Vec<u8> = Vec::new();
    let mut i: usize = 0;
    while i < 16
        invariant
            i <= 16,
            v@ == bytes@.take(i as int),
        decreases 16 - i,
    {
        v.push(bytes[i]);
        i = i + 1;
        assert(v@ =~= bytes@.take(i as int));
    }
    assert(bytes@.take(16) =~= bytes@);
    v
}

/// The bytes of a 32-byte key, as a vector.
fn key_bytes(bytes: &[u8; 32]) -> (v: Vec<u8>)
    ensures
        v@ == bytes@,
{
    let mut v: Vec<u8> = Vec::new();
    crate::cbor::push_all(&mut v, bytes.as_slice());
    v
}

/// A core action for native code: link ids become numbers, identifiers bytes.
pub fn from_core_action(action: CoreAction) -> (a: MeshAction)
    ensures
        match action {
            CoreAction::Connect { peer_token } => a == MeshAction::Connect { peer_token },
            CoreAction::SendBytes { link_id, data } => a == MeshAction::SendBytes { link_id: link_id.0, data },
            CoreAction::CloseLink { link_id } => a == MeshAction::CloseLink { link_id: link_id.0 },
            CoreAction::BundleStored { bundle_id } => a matches MeshAction::BundleStored { bundle_id: b } && b@ == bundle_id@,
            CoreAction::BundleDuplicate { bundle_id } => a matches MeshAction::BundleDuplicate { bundle_id: b } && b@
                == bundle_id@,
            CoreAction::BundleReadyForPeer { link_id, bundle_id } => a matches MeshAction::BundleReadyForPeer {
                link_id: l,
                bundle_id: b,
            } && l == link_id.0 && b@ == bundle_id@,
            CoreAction::Log { code } => a == MeshAction::Log { code },
        },
{
    match action {
        CoreAction::Connect { peer_token } => MeshAction::Connect { peer_token },
        CoreAction::SendBytes { link_id, data } => MeshAction::SendBytes { link_id: link_id.0, data },
        CoreAction::CloseLink { link_id } => MeshAction::CloseLink { link_id: link_id.0 },
        CoreAction::BundleStored { bundle_id } => MeshAction::BundleStored { bundle_id: id_bytes(bundle_id.as_bytes()) },
        CoreAction::BundleDuplicate { bundle_id } => MeshAction::BundleDuplicate { bundle_id: id_bytes(bundle_id.as_bytes()) },
        CoreAction::BundleReadyForPeer { link_id, bundle_id } => MeshAction::BundleReadyForPeer {
            link_id: link_id.0,
            bundle_id: id_bytes(bundle_id.as_bytes()),
        },
        CoreAction::Log { code } => MeshAction::Log { code },
    }
}

/// The lower-case hexadecimal digit of a value below 16.
pub open spec fn hex_digit(n: int) -> char {
    if n < 10 {
        ((48 + n) as u8) as char
    } else {
        ((87 + n) as u8) as char
    }
}

/// Two lower-case hexadecimal digits per byte, high nibble first.
pub open spec fn spec_hex(bytes: Seq<u8>) -> Seq<char>
    decreases bytes.len(),
{
    if bytes.len() == 0 {
        Seq::empty()
    } else {
        spec_hex(bytes.drop_last()) + seq![hex_digit(bytes.last() as int / 16), hex_digit(bytes.last() as int % 16)]
    }
}

fn hex_digit_str(n: u8) -> (s: &'static str)
    requires
        n < 16,
    ensures
        s@ == seq![hex_digit(n as int)],
{
    proof {
        reveal_strlit("0");
        reveal_strlit("1");
        reveal_strlit("2");
        reveal_strlit("3");
        reveal_strlit("4");
        reveal_strlit("5");
        reveal_strlit("6");
        reveal_strlit("7");
        reveal_strlit("8");
        reveal_strlit("9");
        reveal_strlit("a");
        reveal_strlit("b");
        reveal_strlit("c");
        reveal_strlit("d");
        reveal_strlit("e");
        reveal_strlit("f");
    }
    match n {
        0 => "0",
        1 => "1",
        2 => "2",
        3 => "3",
        4 => "4",
        5 => "5",
        6 => "6",
        7 => "7",
        8 => "8",
        9 => "9",
        10 => "a",
        11 => "b",
        12 => "c",
        13 => "d",
        14 => "e",
        _ => "f",
    }
}

/// Appends the bytes from `lo` up to `hi` in lower-case hexadecimal.
pub(crate) fn push_hex(out: &mut String, bytes: &[u8], lo: usize, hi: usize)
    requires
        lo <= hi <= bytes@.len(),
    ensures
        final(out)@ == old(out)@ + spec_hex(bytes@.subrange(lo as int, hi as int)),
{
    let ghost start = out@;
    let mut i: usize = lo;
    assert(bytes@.subrange(lo as int, lo as int) =~= Seq::<u8>::empty());
    while i < hi
        invariant
            lo <= i <= hi <= bytes@.len(),
            out@ == start + spec_hex(bytes@.subrange(lo as int, i as int)),
        decreases hi - i,
    {
        let b = bytes[i];
        out.append(hex_digit_str(b / 16));
        out.append(hex_digit_str(b % 16));
        proof {
            assert(bytes@.subrange(lo as int, i + 1).drop_last() =~= bytes@.subrange(lo as int, i as int));
            assert(bytes@.subrange(lo as int, i + 1).last() == b);
        }
        i = i + 1;
    }
}

/// The bytes in lower-case hexadecimal.
pub fn to_hex(bytes: &[u8]) -> (hex: String)
    ensures
        hex@ == spec_hex(bytes@),
{
    let mut hex = String::new();
    let mut i: usize = 0;
    assert(bytes@.take(0) =~= Seq::<u8>::empty());
    while i < bytes.len()
        invariant
            i <= bytes@.len(),
            hex@ == spec_hex(bytes@.take(i as int)),
        decreases bytes@.len() - i,
    {
        let b = bytes[i];
        hex.append(hex_digit_str(b / 16));
        hex.append(hex_digit_str(b % 16));
        proof {
            assert(bytes@.take(i + 1).drop_last() =~= bytes@.take(i as int));
            assert(bytes@.take(i + 1).last() == b);
        }
        i = i + 1;
    }
    assert(bytes@.take(i as int) =~= bytes@);
    hex
}

/// The secrets record of an identity and a local data key.
pub fn identity_secrets(identity: &Identity, local_data_key: &[u8; 32]) -> (s: MeshIdentitySecrets)
    ensures
        s.user_id@ == identity.spec_user_id(),
        s.signing_public@ == identity.spec_signing_public(),
        s.encryption_public@ == identity.spec_encryption_public(),
        s.fingerprint@ == spec_hex(spec_fingerprint(identity.spec_signing_public(), identity.spec_encryption_public())),
        s.signing_seed@ == identity.signing_seed(),
        s.encryption_seed@ == identity.encryption_seed(),
        s.local_data_key@ == local_data_key@,
{
    let user = identity.user_id();
    let fingerprint = identity.fingerprint();
    MeshIdentitySecrets {
        user_id: id_bytes(user.as_bytes()),
        signing_public: key_bytes(identity.signing_public()),
        encryption_public: key_bytes(identity.encryption_public()),
        fingerprint: to_hex(fingerprint.as_slice()),
        signing_seed: key_bytes(identity.signing_secret()),
        encryption_seed: key_bytes(identity.encryption_secret()),
        local_data_key: key_bytes(local_data_key),
    }
}

/// A new identity and local data key from the operating system's random
/// source, as the record native code must keep.
pub fn generate_identity() -> (s: MeshIdentitySecrets)
    ensures
        s.signing_seed@.len() == 32,
        s.encryption_seed@.len() == 32,
        s.local_data_key@.len() == 32,
        s.signing_public@ == crate::crypto::primitives::ed25519_public_key(s.signing_seed@),
        s.encryption_public@ == crate::crypto::primitives::x25519_public_key(s.encryption_seed@),
        s.user_id@ == crate::crypto::identity::spec_user_id(s.signing_public@),
        s.fingerprint@ == spec_hex(spec_fingerprint(s.signing_public@, s.encryption_public@)),
{
    let signing_seed = os_random_32();
    let encryption_seed = os_random_32();
    let local_data_key = os_random_32();
    let identity = Identity::from_seeds(signing_seed, encryption_seed);
    identity_secrets(&identity, &local_data_key)
}

/// The public record of an identity.
pub fn public_identity_record(identity: &Identity) -> (p: MeshPublicIdentity)
    ensures
        p.user_id@ == identity.spec_user_id(),
        p.signing_public@ == identity.spec_signing_public(),
        p.encryption_public@ == identity.spec_encryption_public(),
        p.fingerprint@ == spec_hex(spec_fingerprint(identity.spec_signing_public(), identity.spec_encryption_public())),
{
    let user = identity.user_id();
    let fingerprint = identity.fingerprint();
    MeshPublicIdentity {
        user_id: id_bytes(user.as_bytes()),
        signing_public: key_bytes(identity.signing_public()),
        encryption_public: key_bytes(identity.encryption_public()),
        fingerprint: to_hex(fingerprint.as_slice()),
    }
}

/// The status record of a node: its user, its discovery id and its fingerprint.
pub fn status_record(identity: &Identity, discovery_id: DiscoveryId) -> (s: MeshStatus)
    ensures
        s.user_id@ == identity.spec_user_id(),
        s.discovery_id@ == discovery_id@,
        s.fingerprint@ == spec_hex(spec_fingerprint(identity.spec_signing_public(), identity.spec_encryption_public())),
{
    let user = identity.user_id();
    let fingerprint = identity.fingerprint();
    MeshStatus {
        user_id: id_bytes(user.as_bytes()),
        discovery_id: id_bytes(discovery_id.as_bytes()),
        fingerprint: to_hex(fingerprint.as_slice()),
    }
}

} // verus!
