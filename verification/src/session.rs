//! One link session: the HELLO / KEY_INIT / KEY_REPLY / SESSION_OK
//! handshake, then encrypted frames with per-direction counters, and the
//! reassembly of bundles offered and sent in chunks.
//!
//! The lower discovery id initiates the key exchange. Randomness (the HELLO
//! nonce, the ephemeral key) comes in as arguments to the verified steps;
//! `open` and `handle_frame` draw it from the operating system.
use vstd::prelude::*;
use crate::types::{BundleId, DiscoveryId, LinkId, UserId, group_id_lemmas};
use crate::bundle::{PROTOCOL_MAJOR, PROTOCOL_MINOR};
use crate::frame::{Frame, FrameType, FLAG_ENCRYPTED, MAX_FRAME_PAYLOAD};
use crate::control::{
    HelloPayload, HelloView, KeyPayload, InventorySummary, BundleOffer, BundleIdPayload, BundleData,
    ErrorPayload, CAPABILITY_TEXT, ERROR_UNSUPPORTED_VERSION, hello_entries, spec_decode_hello,
    spec_decode_key, spec_decode_inventory, spec_decode_offer, spec_decode_bundle_id, spec_decode_data,
    ids_view,
};
use crate::fields::{FieldValue, enc_field_map};
use crate::routing::PeerContext;
use crate::mesh_core::{CoreError, id_lt};
use crate::assoc::{keys_distinct, key_index, assoc_put, assoc_remove, lemma_key_index, lemma_assoc_put, lemma_assoc_remove};
use crate::crypto::identity::bytes16_le;
use crate::crypto::primitives::{CryptoError, x25519, x25519_public_key, os_random_32};
use crate::crypto::session::{
    EphemeralSecret, SessionKeys, handshake_transcript, spec_handshake_transcript, derive_session_keys,
    spec_session_keys, seal_session, open_session, spec_open_session,
};

verus! {

broadcast use group_id_lemmas;

/// Where a session is in its handshake.
#[derive(Clone, Copy, Debug, PartialEq, Eq, Structural)]
pub enum Phase {
    HelloSent,
    WaitKeyInit,
    WaitKeyReply,
    WaitSessionOk,
    Secure,
    Closed,
}

/// What a step of the session asks of, or reports to, its owner.
pub enum SessionEvent {
    Send(Frame),
    Established,
    PeerInventory(Vec<BundleId>),
    Offer(BundleOffer),
    Request(BundleId),
    Data(BundleData),
    Complete(BundleId),
    Close,
}

pub struct MeshSession {
    link_id: LinkId,
    peer_token: Vec<u8>,
    phase: Phase,
    local_hello: HelloPayload,
    local_hello_bytes: Vec<u8>,
    remote_hello: Option<HelloPayload>,
    remote_hello_bytes: Option<Vec<u8>>,
    local_eph: Option<EphemeralSecret>,
    local_eph_public: Option<[u8; 32]>,
    remote_eph: Option<[u8; 32]>,
    keys: Option<SessionKeys>,
    tx_counter: u64,
    rx_counter: u64,
    max_frame: usize,
    user_id: Option<UserId>,
    known_bundle_ids: Vec<BundleId>,
    pending_offers: Vec<(BundleId, u32)>,
    incoming: Vec<(BundleId, Vec<u8>)>,
}

/// The associated data of a frame: version, type code and flags.
pub open spec fn frame_aad(major: u8, minor: u8, ty: FrameType, flags: u8) -> Seq<u8> {
    seq![major, minor, ty.spec_code(), flags]
}

/// `x` clamped into `[lo, hi]` (for `lo <= hi`).
pub open spec fn clamp(x: int, lo: int, hi: int) -> int {
    if x < lo {
        lo
    } else if x > hi {
        hi
    } else {
        x
    }
}

/// `a - b`, or 0 if that is negative.
pub open spec fn saturating_sub(a: int, b: int) -> int {
    if a >= b {
        a - b
    } else {
        0
    }
}

/// The handshake transcript as one side builds it: the lower side's HELLO
/// and ephemeral key come first.
pub open spec fn spec_transcript_of(
    local_is_lo: bool,
    local_hello: Seq<u8>,
    remote_hello: Seq<u8>,
    local_eph: Seq<u8>,
    remote_eph: Seq<u8>,
) -> Seq<u8> {
    if local_is_lo {
        spec_handshake_transcript(local_hello, remote_hello, local_eph, remote_eph)
    } else {
        spec_handshake_transcript(remote_hello, local_hello, remote_eph, local_eph)
    }
}

pub open spec fn incoming_view(v: Seq<(BundleId, Vec<u8>)>) -> Seq<(BundleId, Seq<u8>)> {
    v.map_values(|e: (BundleId, Vec<u8>)| (e.0, e.1@))
}

/// The buffer collected so far for a bundle (empty if none).
pub open spec fn buffer_of(v: Seq<(BundleId, Seq<u8>)>, id: BundleId) -> Seq<u8> {
    let i = key_index(v, id);
    if i < 0 {
        Seq::empty()
    } else {
        v[i].1
    }
}

/// The payload of a KEY_INIT or KEY_REPLY frame.
pub open spec fn key_payload(ephemeral_public: Seq<u8>) -> Seq<u8> {
    enc_field_map(seq![(1u64, FieldValue::Bytes(ephemeral_public))])
}

/// The payload of an ERROR frame.
pub open spec fn error_payload(code: u16) -> Seq<u8> {
    enc_field_map(seq![(1u64, FieldValue::Uint(code as u64))])
}

/// The frame size both sides accept: the smaller of the two HELLOs'
/// limits, kept within `[1024, MAX_FRAME_PAYLOAD]`.
pub open spec fn negotiated_max_frame(local: u32, remote: u32) -> int {
    clamp(if local < remote { local as int } else { remote as int }, 1024, MAX_FRAME_PAYLOAD as int)
}

/// `e` sends a cleartext frame of this type and payload.
pub open spec fn sends_cleartext(e: SessionEvent, ty: FrameType, payload: Seq<u8>) -> bool {
    e matches SessionEvent::Send(f) && f.major == PROTOCOL_MAJOR && f.minor == PROTOCOL_MINOR && f.ty == ty
        && f.flags == 0 && f.payload@ == payload
}

/// `e` sends SESSION_OK sealed under `tx` with counter 0.
pub open spec fn sends_session_ok(e: SessionEvent, tx: Seq<u8>) -> bool {
    e matches SessionEvent::Send(f) && f.major == PROTOCOL_MAJOR && f.minor == PROTOCOL_MINOR
        && f.ty == FrameType::SessionOk && f.flags == FLAG_ENCRYPTED && f.payload@
        == crate::crypto::primitives::chacha20poly1305_seal(
        tx,
        crate::crypto::session::spec_session_nonce(0),
        frame_aad(PROTOCOL_MAJOR, PROTOCOL_MINOR, FrameType::SessionOk, FLAG_ENCRYPTED),
        seq![0xa0u8],
    )
}

/// The keys a side derives, from its ephemeral secret, the peer's
/// ephemeral key and both HELLOs.
pub open spec fn derived_keys(s: MeshSession, seed: Seq<u8>, remote_eph: Seq<u8>) -> (Seq<u8>, Seq<u8>) {
    let lo = id_lt(s.local_hello().discovery_id, s.remote_hello()->0.discovery_id);
    spec_session_keys(
        x25519(seed, remote_eph),
        spec_transcript_of(lo, s.local_hello_bytes(), s.remote_hello_bytes()->0, x25519_public_key(seed), remote_eph),
        lo,
    )
}

/// HELLO received in `HelloSent`: a HELLO of another major version closes
/// the session with an ERROR frame; one with this node's own discovery id
/// is refused; otherwise the frame limit is negotiated, the HELLO kept,
/// and the lower side sends its ephemeral key (KEY_INIT) while the higher
/// side waits for it.
pub open spec fn hello_step(old: MeshSession, frame: Frame, seed: Seq<u8>, new: MeshSession, res: Result<Vec<SessionEvent>, CoreError>) -> bool {
    if old.phase() != Phase::HelloSent || old.remote_hello() is Some {
        res matches Err(CoreError::Session) && new == old
    } else {
        match spec_decode_hello(frame.payload@) {
            Err(e) => res == Err::<Vec<SessionEvent>, CoreError>(CoreError::Wire(e)) && new == old,
            Ok(h) => if h.protocol_major != PROTOCOL_MAJOR {
                &&& new == old.with_phase(Phase::Closed)
                &&& (res matches Ok(ev) && ev@.len() == 2 && sends_cleartext(ev@[0], FrameType::ErrorFrame, error_payload(ERROR_UNSUPPORTED_VERSION)) && ev@[1] is Close)
            } else if h.discovery_id == old.local_hello().discovery_id {
                res matches Err(CoreError::Session) && new == old
            } else {
                let lo = id_lt(old.local_hello().discovery_id, h.discovery_id);
                &&& new.same_reassembly(old)
                &&& new.local_hello() == old.local_hello()
                &&& new.local_hello_bytes() == old.local_hello_bytes()
                &&& new.keys() == old.keys()
                &&& new.tx_counter() == old.tx_counter()
                &&& new.rx_counter() == old.rx_counter()
                &&& new.remote_eph() == old.remote_eph()
                &&& new.max_frame() == negotiated_max_frame(old.local_hello().max_frame_size, h.max_frame_size)
                &&& new.remote_hello() == Some(h)
                &&& new.remote_hello_bytes() == Some(frame.payload@)
                &&& if lo {
                    &&& new.phase() == Phase::WaitKeyReply
                    &&& new.local_eph_seed() == Some(seed)
                    &&& new.local_eph_public() == Some(x25519_public_key(seed))
                    &&& (res matches Ok(ev) && ev@.len() == 1 && sends_cleartext(ev@[0], FrameType::KeyInit, key_payload(x25519_public_key(seed))))
                } else {
                    &&& new.phase() == Phase::WaitKeyInit
                    &&& new.local_eph_seed() == old.local_eph_seed()
                    &&& new.local_eph_public() == old.local_eph_public()
                    &&& (res matches Ok(ev) && ev@.len() == 0)
                }
            },
        }
    }
}

/// KEY_INIT received by the higher side in `WaitKeyInit`: it makes its
/// ephemeral key, derives the keys, answers KEY_REPLY and SESSION_OK, and
/// waits for the peer's SESSION_OK.
pub open spec fn key_init_step(old: MeshSession, frame: Frame, seed: Seq<u8>, new: MeshSession, res: Result<Vec<SessionEvent>, CoreError>) -> bool {
    if old.phase() != Phase::WaitKeyInit {
        res matches Err(CoreError::Session) && new == old
    } else {
        match spec_decode_key(frame.payload@) {
            Err(e) => res == Err::<Vec<SessionEvent>, CoreError>(CoreError::Wire(e)) && new == old,
            Ok(k) => {
                let keys = derived_keys(old, seed, k);
                &&& new.same_reassembly(old)
                &&& new.local_hello() == old.local_hello()
                &&& new.local_hello_bytes() == old.local_hello_bytes()
                &&& new.remote_hello() == old.remote_hello()
                &&& new.remote_hello_bytes() == old.remote_hello_bytes()
                &&& new.max_frame() == old.max_frame()
                &&& new.remote_eph() == Some(k)
                &&& new.local_eph_seed() is None
                &&& new.local_eph_public() == Some(x25519_public_key(seed))
                &&& new.keys() == Some(keys)
                &&& new.tx_counter() == 1
                &&& new.rx_counter() == 0
                &&& new.phase() == Phase::WaitSessionOk
                &&& (res matches Ok(ev) && ev@.len() == 2 && sends_cleartext(ev@[0], FrameType::KeyReply, key_payload(x25519_public_key(seed))) && sends_session_ok(ev@[1], keys.0))
            },
        }
    }
}

/// KEY_REPLY received by the lower side in `WaitKeyReply`: it derives the
/// keys, sends SESSION_OK, and waits for the peer's.
pub open spec fn key_reply_step(old: MeshSession, frame: Frame, new: MeshSession, res: Result<Vec<SessionEvent>, CoreError>) -> bool {
    if old.phase() != Phase::WaitKeyReply {
        res matches Err(CoreError::Session) && new == old
    } else {
        match spec_decode_key(frame.payload@) {
            Err(e) => res == Err::<Vec<SessionEvent>, CoreError>(CoreError::Wire(e)) && new == old,
            Ok(k) => {
                let keys = derived_keys(old, old.local_eph_seed()->0, k);
                &&& new.same_reassembly(old)
                &&& new.local_hello() == old.local_hello()
                &&& new.local_hello_bytes() == old.local_hello_bytes()
                &&& new.remote_hello() == old.remote_hello()
                &&& new.remote_hello_bytes() == old.remote_hello_bytes()
                &&& new.max_frame() == old.max_frame()
                &&& new.remote_eph() == Some(k)
                &&& new.local_eph_seed() is None
                &&& new.local_eph_public() == old.local_eph_public()
                &&& new.keys() == Some(keys)
                &&& new.tx_counter() == 1
                &&& new.rx_counter() == 0
                &&& new.phase() == Phase::WaitSessionOk
                &&& (res matches Ok(ev) && ev@.len() == 1 && sends_session_ok(ev@[0], keys.0))
            },
        }
    }
}

/// A decrypted frame: SESSION_OK completes the handshake (only while
/// waiting for it); ERROR closes; the transfer frames need a secure
/// session and decode to their events; anything else is refused.
pub open spec fn secure_step(old: MeshSession, ty: FrameType, plaintext: Seq<u8>, new: MeshSession, res: Result<Vec<SessionEvent>, CoreError>) -> bool {
    let secure = old.phase() == Phase::Secure;
    match ty {
        FrameType::SessionOk => if old.phase() == Phase::WaitSessionOk {
            new == old.with_phase(Phase::Secure) && (res matches Ok(ev) && ev@.len() == 1 && ev@[0] is Established)
        } else {
            res matches Err(CoreError::Session) && new == old
        },
        FrameType::ErrorFrame => new == old.with_phase(Phase::Closed) && (res matches Ok(ev) && ev@.len() == 1 && ev@[0] is Close),
        FrameType::InventorySummary => new == old && if !secure {
            res matches Err(CoreError::Session)
        } else {
            match spec_decode_inventory(plaintext) {
                Err(e) => res == Err::<Vec<SessionEvent>, CoreError>(CoreError::Wire(e)),
                Ok(ids) => res matches Ok(ev) && ev@.len() == 1 && (ev@[0] matches SessionEvent::PeerInventory(v) && ids_view(v@) == ids),
            }
        },
        FrameType::InventoryRequest => new == old && if !secure {
            res matches Err(CoreError::Session)
        } else {
            res matches Ok(ev) && ev@.len() == 0
        },
        FrameType::BundleOffer => new == old && if !secure {
            res matches Err(CoreError::Session)
        } else {
            match spec_decode_offer(plaintext) {
                Err(e) => res == Err::<Vec<SessionEvent>, CoreError>(CoreError::Wire(e)),
                Ok(o) => res matches Ok(ev) && ev@.len() == 1 && (ev@[0] matches SessionEvent::Offer(x) && x@ == o),
            }
        },
        FrameType::BundleRequest => new == old && if !secure {
            res matches Err(CoreError::Session)
        } else {
            match spec_decode_bundle_id(plaintext) {
                Err(e) => res == Err::<Vec<SessionEvent>, CoreError>(CoreError::Wire(e)),
                Ok(id) => res matches Ok(ev) && ev@.len() == 1 && (ev@[0] matches SessionEvent::Request(x) && x@ == id),
            }
        },
        FrameType::BundleData => new == old && if !secure {
            res matches Err(CoreError::Session)
        } else {
            match spec_decode_data(plaintext) {
                Err(e) => res == Err::<Vec<SessionEvent>, CoreError>(CoreError::Wire(e)),
                Ok(d) => res matches Ok(ev) && ev@.len() == 1 && (ev@[0] matches SessionEvent::Data(x) && x@ == d),
            }
        },
        FrameType::BundleComplete => new == old && if !secure {
            res matches Err(CoreError::Session)
        } else {
            match spec_decode_bundle_id(plaintext) {
                Err(e) => res == Err::<Vec<SessionEvent>, CoreError>(CoreError::Wire(e)),
                Ok(id) => res matches Ok(ev) && ev@.len() == 1 && (ev@[0] matches SessionEvent::Complete(x) && x@ == id),
            }
        },
        _ => res matches Err(CoreError::Session) && new == old,
    }
}

/// One frame received: nothing is accepted once closed; an encrypted frame
/// is opened with the receive key and counter and then handled as secure;
/// after the key exchange no cleartext frame is accepted; before it,
/// HELLO, KEY_INIT and KEY_REPLY drive the handshake and ERROR closes.
pub open spec fn frame_step(old: MeshSession, frame: Frame, seed: Seq<u8>, new: MeshSession, res: Result<Vec<SessionEvent>, CoreError>) -> bool {
    if old.phase() == Phase::Closed {
        res matches Err(CoreError::Session) && new == old
    } else if frame.flags % 2 == 1 {
        match old.keys() {
            None => res matches Err(CoreError::Session) && new == old,
            Some(k) => match spec_open_session(k.1, old.rx_counter(), frame_aad(frame.major, frame.minor, frame.ty, frame.flags), frame.payload@) {
                None => res matches Err(CoreError::Crypto(CryptoError::DecryptionFailed)) && new == old,
                Some(p) => if old.rx_counter() == u64::MAX {
                    res matches Err(CoreError::Session) && new == old
                } else {
                    secure_step(old.with_rx_counter((old.rx_counter() + 1) as u64), frame.ty, p, new, res)
                },
            },
        }
    } else if old.phase() == Phase::Secure || old.phase() == Phase::WaitSessionOk {
        res matches Err(CoreError::Session) && new == old
    } else {
        match frame.ty {
            FrameType::Hello => hello_step(old, frame, seed, new, res),
            FrameType::KeyInit => key_init_step(old, frame, seed, new, res),
            FrameType::KeyReply => key_reply_step(old, frame, new, res),
            FrameType::ErrorFrame => new == old.with_phase(Phase::Closed) && (res matches Ok(ev) && ev@.len() == 1 && ev@[0] is Close),
            _ => res matches Err(CoreError::Session) && new == old,
        }
    }
}

impl MeshSession {
    pub closed spec fn spec_link_id(self) -> LinkId {
        self.link_id
    }

    pub closed spec fn spec_peer_token(self) -> Seq<u8> {
        self.peer_token@
    }

    pub closed spec fn phase(self) -> Phase {
        self.phase
    }

    pub closed spec fn local_hello(self) -> HelloView {
        self.local_hello@
    }

    pub closed spec fn local_hello_bytes(self) -> Seq<u8> {
        self.local_hello_bytes@
    }

    pub closed spec fn remote_hello(self) -> Option<HelloView> {
        match self.remote_hello {
            Some(h) => Some(h@),
            None => None,
        }
    }

    pub closed spec fn remote_hello_bytes(self) -> Option<Seq<u8>> {
        match self.remote_hello_bytes {
            Some(b) => Some(b@),
            None => None,
        }
    }

    /// The secret of this side's ephemeral key, until the keys are derived.
    pub closed spec fn local_eph_seed(self) -> Option<Seq<u8>> {
        match self.local_eph {
            Some(e) => Some(e.seed()),
            None => None,
        }
    }

    pub closed spec fn local_eph_public(self) -> Option<Seq<u8>> {
        match self.local_eph_public {
            Some(p) => Some(p@),
            None => None,
        }
    }

    pub closed spec fn remote_eph(self) -> Option<Seq<u8>> {
        match self.remote_eph {
            Some(p) => Some(p@),
            None => None,
        }
    }

    /// The (tx, rx) keys, once derived.
    pub closed spec fn keys(self) -> Option<(Seq<u8>, Seq<u8>)> {
        match self.keys {
            Some(k) => Some((k.tx@, k.rx@)),
            None => None,
        }
    }

    pub closed spec fn tx_counter(self) -> u64 {
        self.tx_counter
    }

    pub closed spec fn rx_counter(self) -> u64 {
        self.rx_counter
    }

    pub closed spec fn max_frame(self) -> usize {
        self.max_frame
    }

    pub closed spec fn user(self) -> Option<UserId> {
        self.user_id
    }

    pub closed spec fn known_ids(self) -> Seq<BundleId> {
        self.known_bundle_ids@
    }

    /// Offered bundles not yet complete, with their announced sizes.
    pub closed spec fn pending_offers(self) -> Seq<(BundleId, u32)> {
        self.pending_offers@
    }

    /// Bundles being reassembled, with the bytes received so far.
    pub closed spec fn incoming(self) -> Seq<(BundleId, Seq<u8>)> {
        incoming_view(self.incoming@)
    }

    /// The session's own consistency: a remote HELLO is recorded with its
    /// bytes, and after the HELLO exchange both are present; the ephemeral
    /// public key is that of the ephemeral secret; counters start once keys
    /// exist; offers and buffers have one entry per bundle.
    pub closed spec fn wf(self) -> bool {
        &&& self.wf_base()
        &&& (self.phase == Phase::HelloSent || self.phase == Phase::WaitKeyInit || self.phase == Phase::WaitKeyReply)
            ==> self.keys is None
        &&& (self.phase == Phase::WaitSessionOk || self.phase == Phase::Secure) ==> self.keys is Some
        &&& self.phase == Phase::WaitKeyReply ==> self.local_eph is Some
    }

    /// The invariant less what ties the phase to the keys, which holds
    /// between the steps of one handshake transition too.
    closed spec fn wf_base(self) -> bool {
        &&& (self.remote_hello is Some <==> self.remote_hello_bytes is Some)
        &&& (self.phase == Phase::WaitKeyInit || self.phase == Phase::WaitKeyReply || self.phase == Phase::WaitSessionOk
            || self.phase == Phase::Secure) ==> self.remote_hello is Some
        &&& self.local_eph matches Some(e) ==> (self.local_eph_public matches Some(p) && p@ == x25519_public_key(e.seed()))
        &&& self.keys is None ==> self.tx_counter == 0 && self.rx_counter == 0
        &&& keys_distinct(self.pending_offers@)
        &&& keys_distinct(incoming_view(self.incoming@))
        &&& self.local_hello_bytes@ == enc_field_map(hello_entries(self.local_hello@))
    }

    /// The session with its send counter set to `c`.
    pub closed spec fn with_tx_counter(self, c: u64) -> MeshSession {
        MeshSession { tx_counter: c, ..self }
    }

    /// The session in phase `p`.
    pub closed spec fn with_phase(self, p: Phase) -> MeshSession {
        MeshSession { phase: p, ..self }
    }

    /// The session with its receive counter set to `c`.
    pub closed spec fn with_rx_counter(self, c: u64) -> MeshSession {
        MeshSession { rx_counter: c, ..self }
    }

    /// What is known of the peer and its bundles is as in `other`.
    pub open spec fn same_reassembly(self, other: MeshSession) -> bool {
        &&& self.user() == other.user()
        &&& self.known_ids() == other.known_ids()
        &&& self.pending_offers() == other.pending_offers()
        &&& self.incoming() == other.incoming()
        &&& self.spec_link_id() == other.spec_link_id()
        &&& self.spec_peer_token() == other.spec_peer_token()
    }

    /// Everything but the reassembly state is as in `other`.
    pub open spec fn same_handshake(self, other: MeshSession) -> bool {
        &&& self.phase() == other.phase()
        &&& self.keys() == other.keys()
        &&& self.tx_counter() == other.tx_counter()
        &&& self.rx_counter() == other.rx_counter()
        &&& self.max_frame() == other.max_frame()
        &&& self.remote_hello() == other.remote_hello()
        &&& self.remote_hello_bytes() == other.remote_hello_bytes()
        &&& self.local_hello() == other.local_hello()
        &&& self.local_hello_bytes() == other.local_hello_bytes()
        &&& self.local_eph_seed() == other.local_eph_seed()
        &&& self.local_eph_public() == other.local_eph_public()
        &&& self.remote_eph() == other.remote_eph()
    }

    /// Starts a session: sends HELLO with this node's discovery id and the
    /// given 32-byte session nonce.
    pub fn open_with(link_id: LinkId, peer_token: Vec<u8>, local_discovery_id: DiscoveryId, session_nonce: [u8; 32]) -> (r: (Self, Frame))
        ensures
            r.0.wf(),
            r.0.phase() == Phase::HelloSent,
            r.0.spec_link_id() == link_id,
            r.0.spec_peer_token() == peer_token@,
            r.0.local_hello() == (HelloView {
                protocol_major: PROTOCOL_MAJOR,
                protocol_minor: PROTOCOL_MINOR,
                discovery_id: local_discovery_id@,
                session_nonce: session_nonce@,
                capabilities: CAPABILITY_TEXT,
                max_frame_size: MAX_FRAME_PAYLOAD as u32,
            }),
            r.0.remote_hello() is None,
            r.0.keys() is None,
            r.0.local_eph_seed() is None,
            r.0.remote_eph() is None,
            r.0.max_frame() == MAX_FRAME_PAYLOAD,
            r.0.user() is None,
            r.0.known_ids().len() == 0,
            r.0.pending_offers().len() == 0,
            r.0.incoming().len() == 0,
            r.1@ == (crate::frame::FrameView {
                major: PROTOCOL_MAJOR,
                minor: PROTOCOL_MINOR,
                ty: FrameType::Hello,
                flags: 0,
                payload: enc_field_map(hello_entries(r.0.local_hello())),
            }),
    {
        let local_hello = HelloPayload {
            protocol_major: PROTOCOL_MAJOR,
            protocol_minor: PROTOCOL_MINOR,
            discovery_id: local_discovery_id,
            session_nonce,
            capabilities: CAPABILITY_TEXT,
            max_frame_size: MAX_FRAME_PAYLOAD as u32,
        };
        let local_hello_bytes = local_hello.encode();
        let payload = local_hello.encode();
        let frame = Frame::cleartext(FrameType::Hello, payload);
        let pending_offers: Vec<(BundleId, u32)> = Vec::new();
        let incoming: Vec<(BundleId, Vec<u8>)> = Vec::new();
        assert(incoming_view(incoming@) =~= Seq::<(BundleId, Seq<u8>)>::empty());
        let session = MeshSession {
            link_id,
            peer_token,
            phase: Phase::HelloSent,
            local_hello,
            local_hello_bytes,
            remote_hello: None,
            remote_hello_bytes: None,
            local_eph: None,
            local_eph_public: None,
            remote_eph: None,
            keys: None,
            tx_counter: 0,
            rx_counter: 0,
            max_frame: MAX_FRAME_PAYLOAD,
            user_id: None,
            known_bundle_ids: Vec::new(),
            pending_offers,
            incoming,
        };
        (session, frame)
    }

    /// Starts a session with a fresh random session nonce.
    pub fn open(link_id: LinkId, peer_token: Vec<u8>, local_discovery_id: DiscoveryId) -> (r: (Self, Frame))
        ensures
            r.0.wf(),
            r.0.phase() == Phase::HelloSent,
            r.0.spec_link_id() == link_id,
            r.0.spec_peer_token() == peer_token@,
            r.0.local_hello() == (HelloView {
                protocol_major: PROTOCOL_MAJOR,
                protocol_minor: PROTOCOL_MINOR,
                discovery_id: local_discovery_id@,
                session_nonce: r.0.local_hello().session_nonce,
                capabilities: CAPABILITY_TEXT,
                max_frame_size: MAX_FRAME_PAYLOAD as u32,
            }),
            r.0.local_hello().session_nonce.len() == 32,
            r.0.remote_hello() is None,
            r.0.keys() is None,
            r.0.local_eph_seed() is None,
            r.0.remote_eph() is None,
            r.0.max_frame() == MAX_FRAME_PAYLOAD,
            r.0.user() is None,
            r.0.known_ids().len() == 0,
            r.0.pending_offers().len() == 0,
            r.0.incoming().len() == 0,
            r.1@ == (crate::frame::FrameView {
                major: PROTOCOL_MAJOR,
                minor: PROTOCOL_MINOR,
                ty: FrameType::Hello,
                flags: 0,
                payload: enc_field_map(hello_entries(r.0.local_hello())),
            }),
    {
        Self::open_with(link_id, peer_token, local_discovery_id, os_random_32())
    }

    /// What is known of the peer, for routing.
    pub fn peer_context(&self) -> (p: PeerContext)
        ensures
            p.user_id == self.user(),
            p.known_bundle_ids@ == self.known_ids(),
    {
        let mut ids: Vec<BundleId> = Vec::new();
        let mut i: usize = 0;
        while i < self.known_bundle_ids.len()
            invariant
                i <= self.known_bundle_ids@.len(),
                ids@ == self.known_bundle_ids@.take(i as int),
            decreases self.known_bundle_ids@.len() - i,
        {
            ids.push(self.known_bundle_ids[i]);
            i = i + 1;
            assert(ids@ =~= self.known_bundle_ids@.take(i as int));
        }
        assert(self.known_bundle_ids@.take(i as int) =~= self.known_bundle_ids@);
        PeerContext { user_id: self.user_id, known_bundle_ids: ids }
    }

    /// Records who the peer is and what it holds.
    pub fn set_inventory(&mut self, user_id: Option<UserId>, bundle_ids: Vec<BundleId>)
        requires
            old(self).wf(),
        ensures
            final(self).wf(),
            final(self).user() == user_id,
            final(self).known_ids() == bundle_ids@,
            final(self).same_handshake(*old(self)),
            final(self).pending_offers() == old(self).pending_offers(),
            final(self).incoming() == old(self).incoming(),
    {
        self.user_id = user_id;
        self.known_bundle_ids = bundle_ids;
    }

    /// Records what the peer holds.
    pub fn set_known_ids(&mut self, ids: Vec<BundleId>)
        requires
            old(self).wf(),
        ensures
            final(self).wf(),
            final(self).known_ids() == ids@,
            final(self).user() == old(self).user(),
            final(self).same_handshake(*old(self)),
            final(self).pending_offers() == old(self).pending_offers(),
            final(self).incoming() == old(self).incoming(),
    {
        self.known_bundle_ids = ids;
    }

    /// Records that the peer holds one more bundle.
    pub fn note_peer_has(&mut self, bundle_id: BundleId)
        requires
            old(self).wf(),
        ensures
            final(self).wf(),
            final(self).known_ids().map_values(|b: BundleId| b@).to_set() == old(self).known_ids().map_values(
                |b: BundleId| b@,
            ).to_set().insert(bundle_id@),
            final(self).user() == old(self).user(),
            final(self).same_handshake(*old(self)),
            final(self).pending_offers() == old(self).pending_offers(),
            final(self).incoming() == old(self).incoming(),
    {
        let ghost before = self.known_bundle_ids@;
        let mut i: usize = 0;
        while i < self.known_bundle_ids.len()
            invariant
                i <= self.known_bundle_ids@.len(),
                self.known_bundle_ids@ == before,
                *self == *old(self),
                old(self).wf(),
                forall|j: int| 0 <= j < i ==> self.known_bundle_ids@[j] != bundle_id,
            decreases self.known_bundle_ids@.len() - i,
        {
            if self.known_bundle_ids[i] == bundle_id {
                assert(before.map_values(|b: BundleId| b@)[i as int] == bundle_id@);
                assert(before.map_values(|b: BundleId| b@).to_set() =~= before.map_values(|b: BundleId| b@).to_set().insert(
                    bundle_id@,
                ));
                return;
            }
            i = i + 1;
        }
        self.known_bundle_ids.push(bundle_id);
        assert(self.known_bundle_ids@.map_values(|b: BundleId| b@) =~= before.map_values(|b: BundleId| b@).push(bundle_id@));
        proof { before.map_values(|b: BundleId| b@).lemma_push_to_set_commute(bundle_id@); }
    }

    /// Records an offer's announced size (replacing an earlier one for the bundle).
    pub fn note_offer(&mut self, offer: &BundleOffer)
        requires
            old(self).wf(),
        ensures
            final(self).wf(),
            final(self).pending_offers() == assoc_put(old(self).pending_offers(), offer.bundle_id, offer.size),
            final(self).known_ids() == old(self).known_ids(),
            final(self).user() == old(self).user(),
            final(self).same_handshake(*old(self)),
            final(self).incoming() == old(self).incoming(),
    {
        proof {
            lemma_assoc_put(self.pending_offers@, offer.bundle_id, offer.size);
            lemma_key_index(self.pending_offers@, offer.bundle_id);
        }
        match find_offer(&self.pending_offers, offer.bundle_id) {
            Some(i) => {
                self.pending_offers.set(i, (offer.bundle_id, offer.size));
            },
            None => {
                self.pending_offers.push((offer.bundle_id, offer.size));
            },
        }
        assert(self.pending_offers@ =~= assoc_put(old(self).pending_offers@, offer.bundle_id, offer.size));
    }

    /// The most plaintext one data frame carries: the negotiated frame
    /// limit less the tag (16) and 64 bytes of framing, but never under 1024.
    pub fn plaintext_chunk_size(&self) -> (n: usize)
        ensures
            n == ({
                let limit = saturating_sub(
                    if self.max_frame() < MAX_FRAME_PAYLOAD { self.max_frame() as int } else { MAX_FRAME_PAYLOAD as int },
                    16,
                );
                if saturating_sub(limit, 64) > 1024 { saturating_sub(limit, 64) } else { 1024 }
            }),
    {
        let m: usize = if self.max_frame < MAX_FRAME_PAYLOAD { self.max_frame } else { MAX_FRAME_PAYLOAD };
        let limit: usize = if m >= 16 { m - 16 } else { 0 };
        let chunk: usize = if limit >= 64 { limit - 64 } else { 0 };
        if chunk > 1024 { chunk } else { 1024 }
    }

    /// Appends a chunk to the bundle's reassembly buffer (creating an empty
    /// one first if there is none). A chunk whose offset is not the
    /// buffer's length is refused (`Session`). Once the buffer reaches the
    /// size the bundle's offer announced, the bundle is complete: its bytes
    /// are returned and its buffer and offer are dropped.
    pub fn append_data(&mut self, data: &BundleData) -> (res: Result<Option<Vec<u8>>, CoreError>)
        requires
            old(self).wf(),
        ensures
            final(self).wf(),
            final(self).same_handshake(*old(self)),
            final(self).known_ids() == old(self).known_ids(),
            final(self).user() == old(self).user(),
            ({
                let id = data.bundle_id;
                let buf = buffer_of(old(self).incoming(), id);
                let nb = buf + data.data@;
                let k = key_index(old(self).pending_offers(), id);
                let ready = k >= 0 && (nb.len() as u32) >= old(self).pending_offers()[k].1;
                if data.offset as int != buf.len() {
                    &&& res matches Err(CoreError::Session)
                    &&& final(self).incoming() == assoc_put(old(self).incoming(), id, buf)
                    &&& final(self).pending_offers() == old(self).pending_offers()
                } else if ready {
                    &&& res matches Ok(Some(v)) && v@ == nb
                    &&& final(self).incoming() == assoc_remove(old(self).incoming(), id)
                    &&& final(self).pending_offers() == assoc_remove(old(self).pending_offers(), id)
                } else {
                    &&& res matches Ok(None)
                    &&& final(self).incoming() == assoc_put(old(self).incoming(), id, nb)
                    &&& final(self).pending_offers() == old(self).pending_offers()
                }
            }),
    {
        let id = data.bundle_id;
        let ghost inc = incoming_view(self.incoming@);
        proof {
            lemma_key_index(inc, id);
            lemma_assoc_put(inc, id, buffer_of(inc, id));
            lemma_assoc_put(inc, id, buffer_of(inc, id) + data.data@);
            lemma_assoc_remove(inc, id);
            lemma_assoc_remove(self.pending_offers@, id);
            lemma_key_index(self.pending_offers@, id);
        }
        let found = find_incoming(&self.incoming, id);
        let idx: usize;
        let mut buf: Vec<u8>;
        match found {
            Some(i) => {
                let entry = self.incoming.remove(i);
                idx = i;
                buf = entry.1;
            },
            None => {
                idx = self.incoming.len();
                buf = Vec::new();
            },
        }
        assert(buf@ == buffer_of(inc, id));
        assert(incoming_view(self.incoming@) =~= if found is Some { inc.remove(idx as int) } else { inc });
        if data.offset as usize != buf.len() {
            self.incoming.insert(idx, (id, buf));
            assert(incoming_view(self.incoming@) =~= assoc_put(inc, id, buffer_of(inc, id)));
            return Err(CoreError::Session);
        }
        crate::cbor::push_all(&mut buf, data.data.as_slice());
        let ready = match find_offer(&self.pending_offers, id) {
            Some(j) => buf.len() as u32 >= self.pending_offers[j].1,
            None => false,
        };
        if ready {
            if let Some(j) = find_offer(&self.pending_offers, id) {
                self.pending_offers.remove(j);
            }
            assert(incoming_view(self.incoming@) =~= assoc_remove(inc, id));
            assert(self.pending_offers@ =~= assoc_remove(old(self).pending_offers@, id));
            Ok(Some(buf))
        } else {
            self.incoming.insert(idx, (id, buf));
            assert(incoming_view(self.incoming@) =~= assoc_put(inc, id, buffer_of(inc, id) + data.data@));
            Ok(None)
        }
    }

    /// Seals a frame of the given type under the send key, with the send
    /// counter as nonce, and advances the counter. No key yet, or a counter
    /// at its end, is `Session`.
    pub fn encrypt(&mut self, ty: FrameType, plaintext: Vec<u8>) -> (res: Result<Frame, CoreError>)
        requires
            old(self).wf(),
        ensures
            final(self).wf(),
            match old(self).keys() {
                None => res matches Err(CoreError::Session) && *final(self) == *old(self),
                Some(k) => if old(self).tx_counter() == u64::MAX {
                    res matches Err(CoreError::Session) && *final(self) == *old(self)
                } else if plaintext@.len() / 64 >= u32::MAX {
                    res matches Err(CoreError::Crypto(CryptoError::EncryptionFailed)) && *final(self) == *old(self)
                } else {
                    &&& res matches Ok(f) && f.major == PROTOCOL_MAJOR && f.minor == PROTOCOL_MINOR && f.ty == ty
                        && f.flags == FLAG_ENCRYPTED && f.payload@ == crate::crypto::primitives::chacha20poly1305_seal(
                        k.0,
                        crate::crypto::session::spec_session_nonce(old(self).tx_counter()),
                        frame_aad(PROTOCOL_MAJOR, PROTOCOL_MINOR, ty, FLAG_ENCRYPTED),
                        plaintext@,
                    ) && spec_open_session(
                        k.0,
                        old(self).tx_counter(),
                        frame_aad(PROTOCOL_MAJOR, PROTOCOL_MINOR, ty, FLAG_ENCRYPTED),
                        f.payload@,
                    ) == Some(plaintext@)
                    &&& final(self).tx_counter() == old(self).tx_counter() + 1
                    &&& *final(self) == old(self).with_tx_counter((old(self).tx_counter() + 1) as u64)
                },
            },
    {
        let key = match &self.keys {
            Some(k) => k.tx,
            None => return Err(CoreError::Session),
        };
        if self.tx_counter == u64::MAX {
            return Err(CoreError::Session);
        }
        let aad: [u8; 4] = [PROTOCOL_MAJOR, PROTOCOL_MINOR, ty.code(), FLAG_ENCRYPTED];
        assert(aad@ =~= frame_aad(PROTOCOL_MAJOR, PROTOCOL_MINOR, ty, FLAG_ENCRYPTED));
        let payload = match seal_session(&key, self.tx_counter, aad.as_slice(), plaintext.as_slice()) {
            Ok(p) => p,
            Err(e) => return Err(CoreError::Crypto(e)),
        };
        self.tx_counter = self.tx_counter + 1;
        Ok(Frame { major: PROTOCOL_MAJOR, minor: PROTOCOL_MINOR, ty, flags: FLAG_ENCRYPTED, payload })
    }

    /// Opens an encrypted frame under the receive key, with the receive
    /// counter as nonce, and advances the counter.
    fn decrypt(&mut self, frame: &Frame) -> (res: Result<Vec<u8>, CoreError>)
        requires
            old(self).wf(),
        ensures
            final(self).wf(),
            match old(self).keys() {
                None => res matches Err(CoreError::Session) && *final(self) == *old(self),
                Some(k) => match spec_open_session(k.1, old(self).rx_counter(), frame_aad(frame.major, frame.minor, frame.ty, frame.flags), frame.payload@) {
                    None => res matches Err(CoreError::Crypto(CryptoError::DecryptionFailed)) && *final(self) == *old(self),
                    Some(p) => if old(self).rx_counter() == u64::MAX {
                        res matches Err(CoreError::Session) && *final(self) == *old(self)
                    } else {
                        &&& res matches Ok(v) && v@ == p
                        &&& *final(self) == old(self).with_rx_counter((old(self).rx_counter() + 1) as u64)
                    },
                },
            },
    {
        let key = match &self.keys {
            Some(k) => k.rx,
            None => return Err(CoreError::Session),
        };
        let aad: [u8; 4] = [frame.major, frame.minor, frame.ty.code(), frame.flags];
        assert(aad@ =~= frame_aad(frame.major, frame.minor, frame.ty, frame.flags));
        let plaintext = match open_session(&key, self.rx_counter, aad.as_slice(), frame.payload.as_slice()) {
            Ok(p) => p,
            Err(e) => return Err(CoreError::Crypto(e)),
        };
        match self.rx_counter.checked_add(1) {
            Some(c) => {
                self.rx_counter = c;
                Ok(plaintext)
            },
            None => Err(CoreError::Session),
        }
    }

    /// Whether this side has the lower discovery id.
    fn local_is_lo(&self) -> (r: bool)
        requires
            self.remote_hello() is Some,
        ensures
            r == id_lt(self.local_hello().discovery_id, self.remote_hello()->0.discovery_id),
    {
        let remote = match &self.remote_hello {
            Some(h) => h.discovery_id,
            None => self.local_hello.discovery_id,
        };
        bytes16_le(self.local_hello.discovery_id.as_bytes(), remote.as_bytes()) && !(self.local_hello.discovery_id == remote)
    }

    fn generate_ephemeral(&mut self, seed: [u8; 32])
        requires
            old(self).wf_base(),
        ensures
            final(self).wf_base(),
            final(self).local_eph_seed() == Some(seed@),
            final(self).local_eph_public() == Some(x25519_public_key(seed@)),
            final(self).same_reassembly(*old(self)),
            final(self).phase() == old(self).phase(),
            final(self).keys() == old(self).keys(),
            final(self).tx_counter() == old(self).tx_counter(),
            final(self).rx_counter() == old(self).rx_counter(),
            final(self).max_frame() == old(self).max_frame(),
            final(self).remote_hello() == old(self).remote_hello(),
            final(self).remote_hello_bytes() == old(self).remote_hello_bytes(),
            final(self).local_hello() == old(self).local_hello(),
            final(self).local_hello_bytes() == old(self).local_hello_bytes(),
            final(self).remote_eph() == old(self).remote_eph(),
    {
        let secret = EphemeralSecret::from_seed(seed);
        self.local_eph_public = Some(secret.public_bytes());
        self.local_eph = Some(secret);
    }

    /// Derives the session keys from the ephemeral exchange and both HELLOs,
    /// and forgets the ephemeral secret.
    fn derive_keys(&mut self) -> (res: Result<(), CoreError>)
        requires
            old(self).wf_base(),
            old(self).remote_hello() is Some,
            old(self).local_eph_seed() is Some,
            old(self).remote_eph() is Some,
        ensures
            final(self).wf_base(),
            res is Ok,
            final(self).keys() == Some(spec_session_keys(
                x25519(old(self).local_eph_seed()->0, old(self).remote_eph()->0),
                spec_transcript_of(
                    id_lt(old(self).local_hello().discovery_id, old(self).remote_hello()->0.discovery_id),
                    old(self).local_hello_bytes(),
                    old(self).remote_hello_bytes()->0,
                    old(self).local_eph_public()->0,
                    old(self).remote_eph()->0,
                ),
                id_lt(old(self).local_hello().discovery_id, old(self).remote_hello()->0.discovery_id),
            )),
            forall|other: EphemeralSecret|
                other.seed().len() == 32 && old(self).remote_eph()->0 == #[trigger] x25519_public_key(other.seed())
                    ==> x25519(old(self).local_eph_seed()->0, old(self).remote_eph()->0) == x25519(
                    other.seed(),
                    x25519_public_key(old(self).local_eph_seed()->0),
                ),
            final(self).local_eph_seed() is None,
            final(self).same_reassembly(*old(self)),
            final(self).phase() == old(self).phase(),
            final(self).tx_counter() == old(self).tx_counter(),
            final(self).rx_counter() == old(self).rx_counter(),
            final(self).max_frame() == old(self).max_frame(),
            final(self).remote_hello() == old(self).remote_hello(),
            final(self).remote_hello_bytes() == old(self).remote_hello_bytes(),
            final(self).local_hello() == old(self).local_hello(),
            final(self).local_hello_bytes() == old(self).local_hello_bytes(),
            final(self).local_eph_public() == old(self).local_eph_public(),
            final(self).remote_eph() == old(self).remote_eph(),
    {
        let local_is_lo = self.local_is_lo();
        let local_eph_public = match self.local_eph_public {
            Some(p) => p,
            None => return Err(CoreError::Session),
        };
        let remote_eph = match self.remote_eph {
            Some(p) => p,
            None => return Err(CoreError::Session),
        };
        let transcript = match &self.remote_hello_bytes {
            Some(remote_hello_bytes) => if local_is_lo {
                handshake_transcript(
                    self.local_hello_bytes.as_slice(),
                    remote_hello_bytes.as_slice(),
                    &local_eph_public,
                    &remote_eph,
                )
            } else {
                handshake_transcript(
                    remote_hello_bytes.as_slice(),
                    self.local_hello_bytes.as_slice(),
                    &remote_eph,
                    &local_eph_public,
                )
            },
            None => return Err(CoreError::Session),
        };
        let shared = match &self.local_eph {
            Some(e) => e.shared_secret(&remote_eph),
            None => return Err(CoreError::Session),
        };
        let keys = match derive_session_keys(&shared, transcript.as_slice(), local_is_lo) {
            Ok(k) => k,
            Err(e) => return Err(CoreError::Crypto(e)),
        };
        self.keys = Some(keys);
        self.local_eph = None;
        Ok(())
    }

    fn on_hello(&mut self, frame: Frame, seed: [u8; 32]) -> (res: Result<Vec<SessionEvent>, CoreError>)
        requires
            old(self).wf(),
        ensures
            final(self).wf(),
            hello_step(*old(self), frame, seed@, *final(self), res),
    {
        if self.phase != Phase::HelloSent || self.remote_hello.is_some() {
            return Err(CoreError::Session);
        }
        let hello = match HelloPayload::decode(frame.payload.as_slice()) {
            Ok(h) => h,
            Err(e) => return Err(CoreError::Wire(e)),
        };
        if hello.protocol_major != PROTOCOL_MAJOR {
            self.phase = Phase::Closed;
            let error = ErrorPayload { code: ERROR_UNSUPPORTED_VERSION };
            let frame = Frame::cleartext(FrameType::ErrorFrame, error.encode());
            return Ok(vec![SessionEvent::Send(frame), SessionEvent::Close]);
        }
        if hello.discovery_id == self.local_hello.discovery_id {
            return Err(CoreError::Session);
        }
        let smaller: u32 = if self.local_hello.max_frame_size < hello.max_frame_size {
            self.local_hello.max_frame_size
        } else {
            hello.max_frame_size
        };
        let limit: usize = smaller as usize;
        self.max_frame = if limit < 1024 {
            1024
        } else if limit > MAX_FRAME_PAYLOAD {
            MAX_FRAME_PAYLOAD
        } else {
            limit
        };
        self.remote_hello_bytes = Some(frame.payload);
        self.remote_hello = Some(hello);
        if self.local_is_lo() {
            self.generate_ephemeral(seed);
            let key = KeyPayload { ephemeral_public: self.local_eph_public.unwrap() };
            self.phase = Phase::WaitKeyReply;
            Ok(vec![SessionEvent::Send(Frame::cleartext(FrameType::KeyInit, key.encode()))])
        } else {
            self.phase = Phase::WaitKeyInit;
            Ok(Vec::new())
        }
    }

    fn on_key_init(&mut self, frame: Frame, seed: [u8; 32]) -> (res: Result<Vec<SessionEvent>, CoreError>)
        requires
            old(self).wf(),
        ensures
            final(self).wf(),
            key_init_step(*old(self), frame, seed@, *final(self), res),
    {
        if self.phase != Phase::WaitKeyInit {
            return Err(CoreError::Session);
        }
        let key = match KeyPayload::decode(frame.payload.as_slice()) {
            Ok(k) => k,
            Err(e) => return Err(CoreError::Wire(e)),
        };
        self.remote_eph = Some(key.ephemeral_public);
        self.generate_ephemeral(seed);
        self.derive_keys()?;
        let reply = KeyPayload { ephemeral_public: self.local_eph_public.unwrap() };
        self.phase = Phase::WaitSessionOk;
        let session_ok = self.encrypt(FrameType::SessionOk, empty_map())?;
        Ok(vec![
            SessionEvent::Send(Frame::cleartext(FrameType::KeyReply, reply.encode())),
            SessionEvent::Send(session_ok),
        ])
    }

    fn on_key_reply(&mut self, frame: Frame) -> (res: Result<Vec<SessionEvent>, CoreError>)
        requires
            old(self).wf(),
        ensures
            final(self).wf(),
            key_reply_step(*old(self), frame, *final(self), res),
    {
        if self.phase != Phase::WaitKeyReply {
            return Err(CoreError::Session);
        }
        let key = match KeyPayload::decode(frame.payload.as_slice()) {
            Ok(k) => k,
            Err(e) => return Err(CoreError::Wire(e)),
        };
        self.remote_eph = Some(key.ephemeral_public);
        self.derive_keys()?;
        self.phase = Phase::WaitSessionOk;
        let session_ok = self.encrypt(FrameType::SessionOk, empty_map())?;
        Ok(vec![SessionEvent::Send(session_ok)])
    }

    fn handle_secure(&mut self, ty: FrameType, plaintext: Vec<u8>) -> (res: Result<Vec<SessionEvent>, CoreError>)
        requires
            old(self).wf(),
        ensures
            final(self).wf(),
            secure_step(*old(self), ty, plaintext@, *final(self), res),
    {
        match ty {
            FrameType::SessionOk => self.on_session_ok(),
            FrameType::ErrorFrame => {
                self.phase = Phase::Closed;
                Ok(vec![SessionEvent::Close])
            },
            FrameType::InventorySummary => {
                self.require_secure()?;
                match InventorySummary::decode(plaintext.as_slice()) {
                    Ok(summary) => Ok(vec![SessionEvent::PeerInventory(summary.bundle_ids)]),
                    Err(e) => Err(CoreError::Wire(e)),
                }
            },
            FrameType::InventoryRequest => {
                self.require_secure()?;
                Ok(Vec::new())
            },
            FrameType::BundleOffer => {
                self.require_secure()?;
                match BundleOffer::decode(plaintext.as_slice()) {
                    Ok(o) => Ok(vec![SessionEvent::Offer(o)]),
                    Err(e) => Err(CoreError::Wire(e)),
                }
            },
            FrameType::BundleRequest => {
                self.require_secure()?;
                match BundleIdPayload::decode(plaintext.as_slice()) {
                    Ok(p) => Ok(vec![SessionEvent::Request(p.bundle_id)]),
                    Err(e) => Err(CoreError::Wire(e)),
                }
            },
            FrameType::BundleData => {
                self.require_secure()?;
                match BundleData::decode(plaintext.as_slice()) {
                    Ok(d) => Ok(vec![SessionEvent::Data(d)]),
                    Err(e) => Err(CoreError::Wire(e)),
                }
            },
            FrameType::BundleComplete => {
                self.require_secure()?;
                match BundleIdPayload::decode(plaintext.as_slice()) {
                    Ok(p) => Ok(vec![SessionEvent::Complete(p.bundle_id)]),
                    Err(e) => Err(CoreError::Wire(e)),
                }
            },
            _ => Err(CoreError::Session),
        }
    }

    fn on_session_ok(&mut self) -> (res: Result<Vec<SessionEvent>, CoreError>)
        requires
            old(self).wf(),
        ensures
            final(self).wf(),
            old(self).phase() == Phase::WaitSessionOk ==> *final(self) == old(self).with_phase(Phase::Secure)
                && (res matches Ok(ev) && ev@.len() == 1 && ev@[0] is Established),
            old(self).phase() != Phase::WaitSessionOk ==> (res matches Err(CoreError::Session)) && *final(self) == *old(self),
    {
        if self.phase != Phase::WaitSessionOk {
            return Err(CoreError::Session);
        }
        self.phase = Phase::Secure;
        Ok(vec![SessionEvent::Established])
    }

    fn require_secure(&self) -> (res: Result<(), CoreError>)
        ensures
            self.phase() == Phase::Secure ==> res is Ok,
            self.phase() != Phase::Secure ==> res matches Err(CoreError::Session),
    {
        if self.phase == Phase::Secure {
            Ok(())
        } else {
            Err(CoreError::Session)
        }
    }

    /// Handles one received frame, with `seed` as the ephemeral secret
    /// should this step need one.
    pub fn handle_frame_with(&mut self, frame: Frame, seed: [u8; 32]) -> (res: Result<Vec<SessionEvent>, CoreError>)
        requires
            old(self).wf(),
        ensures
            final(self).wf(),
            frame_step(*old(self), frame, seed@, *final(self), res),
    {
        if self.phase == Phase::Closed {
            return Err(CoreError::Session);
        }
        if frame.is_encrypted() {
            let ty = frame.ty;
            let plaintext = self.decrypt(&frame)?;
            return self.handle_secure(ty, plaintext);
        }
        if self.phase == Phase::Secure || self.phase == Phase::WaitSessionOk {
            return Err(CoreError::Session);
        }
        match frame.ty {
            FrameType::Hello => self.on_hello(frame, seed),
            FrameType::KeyInit => self.on_key_init(frame, seed),
            FrameType::KeyReply => self.on_key_reply(frame),
            FrameType::ErrorFrame => {
                self.phase = Phase::Closed;
                Ok(vec![SessionEvent::Close])
            },
            _ => Err(CoreError::Session),
        }
    }

    /// Handles one received frame, drawing a fresh ephemeral secret from the
    /// operating system.
    pub fn handle_frame(&mut self, frame: Frame) -> (res: Result<Vec<SessionEvent>, CoreError>)
        requires
            old(self).wf(),
        ensures
            final(self).wf(),
            exists|seed: Seq<u8>| seed.len() == 32 && #[trigger] frame_step(*old(self), frame, seed, *final(self), res),
    {
        let seed = os_random_32();
        self.handle_frame_with(frame, seed)
    }

    /// Whether the handshake is complete.
    pub fn is_secure(&self) -> (r: bool)
        ensures
            r == (self.phase() == Phase::Secure),
    {
        self.phase == Phase::Secure
    }
}

fn find_offer(offers: &Vec<(BundleId, u32)>, id: BundleId) -> (r: Option<usize>)
    ensures
        match r {
            Some(i) => i == key_index(offers@, id) && i < offers@.len(),
            None => key_index(offers@, id) < 0,
        },
{
    proof { lemma_key_index(offers@, id); }
    let mut i: usize = 0;
    while i < offers.len()
        invariant
            i <= offers@.len(),
            forall|j: int| 0 <= j < i ==> offers@[j].0 != id,
        decreases offers@.len() - i,
    {
        if offers[i].0 == id {
            proof { crate::mesh_core::lemma_first_key(offers@, id, i as int); }
            return Some(i);
        }
        i = i + 1;
    }
    None
}

fn find_incoming(incoming: &Vec<(BundleId, Vec<u8>)>, id: BundleId) -> (r: Option<usize>)
    ensures
        match r {
            Some(i) => i == key_index(incoming_view(incoming@), id) && i < incoming@.len(),
            None => key_index(incoming_view(incoming@), id) < 0,
        },
{
    proof { lemma_key_index(incoming_view(incoming@), id); }
    let mut i: usize = 0;
    while i < incoming.len()
        invariant
            i <= incoming@.len(),
            forall|j: int| 0 <= j < i ==> incoming@[j].0 != id,
        decreases incoming@.len() - i,
    {
        if incoming[i].0 == id {
            proof {
                assert forall|j: int| 0 <= j < i implies #[trigger] incoming_view(incoming@)[j].0 != id by {}
                crate::mesh_core::lemma_first_key(incoming_view(incoming@), id, i as int);
            }
            return Some(i);
        }
        i = i + 1;
    }
    proof {
        if key_index(incoming_view(incoming@), id) >= 0 {
            let k = key_index(incoming_view(incoming@), id);
            assert(incoming_view(incoming@)[k].0 == incoming@[k].0);
        }
    }
    None
}

/// The plaintext of SESSION_OK: an empty CBOR map.
fn empty_map() -> (v: Vec<u8>)
    ensures
        v@ == seq![0xa0u8],
{
    let v = vec![0xa0u8];
    assert(v@ =~= seq![0xa0u8]);
    v
}

/// Two ends of one handshake, each holding the other's HELLO (bytes and
/// decoded) and ephemeral public key, derive mirrored keys: the lower end
/// sends with what the higher end receives with, and the other way round.
/// (That both ends compute the same X25519 secret is what the exchange
/// gives; `derive_keys` states it for each end.)
pub proof fn lemma_handshake_keys_mirror(lo: MeshSession, hi: MeshSession, seed_lo: Seq<u8>, seed_hi: Seq<u8>)
    requires
        lo.remote_hello() == Some(hi.local_hello()),
        lo.remote_hello_bytes() == Some(hi.local_hello_bytes()),
        hi.remote_hello() == Some(lo.local_hello()),
        hi.remote_hello_bytes() == Some(lo.local_hello_bytes()),
        lo.local_hello().discovery_id.len() == hi.local_hello().discovery_id.len(),
        id_lt(lo.local_hello().discovery_id, hi.local_hello().discovery_id),
        x25519(seed_lo, x25519_public_key(seed_hi)) == x25519(seed_hi, x25519_public_key(seed_lo)),
    ensures
        derived_keys(lo, seed_lo, x25519_public_key(seed_hi)).0 == derived_keys(hi, seed_hi, x25519_public_key(seed_lo)).1,
        derived_keys(lo, seed_lo, x25519_public_key(seed_hi)).1 == derived_keys(hi, seed_hi, x25519_public_key(seed_lo)).0,
{
    crate::crypto::identity::lemma_lex_total(lo.local_hello().discovery_id, hi.local_hello().discovery_id);
    assert(!id_lt(hi.local_hello().discovery_id, lo.local_hello().discovery_id));
}

} // verus!
