//! Bundles: the unit a node stores, relays and delivers.
//!
//! A bundle is written as one canonical CBOR map with numeric keys in
//! ascending order. The sender's Ed25519 signature covers the map of fields
//! 1 to 11 (the immutable header and the encrypted payload), so relays may
//! change the hop count and receive time without breaking it.
use vstd::prelude::*;
use crate::error::WireError;
use crate::types::{
    BundleId, BundleType, Priority, UserId, bundle_type_of_code, priority_of_code, group_id_lemmas,
};
use crate::cbor::{CborWriter, enc_map, enc_uint, enc_int, head, MAJOR_BYTES};
use crate::fields::{
    FieldKind, FieldValue, ExecField, TABLE_LEN, table_view, table_fits, uint_at, int_at, bytes_at,
    enc_field_map, enc_entries, entries_fit, table_after, empty_table, spec_field_map,
    read_field_map, put_uint, put_int, put_bytes, uint_slot, int_slot, take_bytes,
    lemma_field_map_enc, lemma_field_map_fits, lemma_table_after, lemma_enc_entries_push,
    bytes_to_array16, value_readable, entries_bound, lemma_entries_len, lemma_field_map_trailing,
    enc_field_value,
};

verus! {

broadcast use group_id_lemmas;

pub const PROTOCOL_MAJOR: u8 = 1;
pub const PROTOCOL_MINOR: u8 = 0;
pub const MAX_TEXT_BUNDLE_BYTES: usize = 65536;
pub const SIGNATURE_LENGTH: usize = 64;

pub const KEY_VERSION: u8 = 1;
pub const KEY_BUNDLE_ID: u8 = 2;
pub const KEY_BUNDLE_TYPE: u8 = 3;
pub const KEY_SENDER_ID: u8 = 4;
pub const KEY_DESTINATION_ID: u8 = 5;
pub const KEY_CREATED_AT: u8 = 6;
pub const KEY_TTL_SECONDS: u8 = 7;
pub const KEY_HOP_LIMIT: u8 = 8;
pub const KEY_PRIORITY: u8 = 9;
pub const KEY_PAYLOAD_LENGTH: u8 = 10;
pub const KEY_ENCRYPTED_PAYLOAD: u8 = 11;
pub const KEY_SIGNATURE: u8 = 12;
pub const KEY_HOP_COUNT: u8 = 20;
pub const KEY_RECEIVED_AT: u8 = 21;

/// The protocol version as carried in a bundle: `(major << 8) | minor`.
pub open spec fn version_code(major: u8, minor: u8) -> u16 {
    (major * 256 + minor) as u16
}

pub fn protocol_version_code(major: u8, minor: u8) -> (c: u16)
    ensures
        c == version_code(major, minor),
        c == major * 256 + minor,
{
    (major as u16) * 256 + (minor as u16)
}

#[derive(Clone, Debug, PartialEq, Eq)]
pub struct ImmutableBundleHeader {
    pub protocol_major: u8,
    pub protocol_minor: u8,
    pub bundle_id: BundleId,
    pub bundle_type: BundleType,
    pub sender_id: UserId,
    pub destination_id: UserId,
    pub created_at_ms: i64,
    pub ttl_seconds: u32,
    pub hop_limit: u16,
    pub priority: Priority,
    pub payload_length: u32,
}

/// The header fields that relays may change.
#[derive(Clone, Copy, Debug, PartialEq, Eq, Structural)]
pub struct RelayHeader {
    pub hop_count: u16,
    pub received_at_ms: i64,
}

#[derive(Clone, Debug, PartialEq, Eq)]
pub struct WireBundle {
    pub immutable: ImmutableBundleHeader,
    pub relay: RelayHeader,
    pub encrypted_payload: Vec<u8>,
    pub sender_signature: Vec<u8>,
}

/// An immutable header with its identifiers as byte sequences.
pub struct ImmutableHeaderView {
    pub protocol_major: u8,
    pub protocol_minor: u8,
    pub bundle_id: Seq<u8>,
    pub bundle_type: BundleType,
    pub sender_id: Seq<u8>,
    pub destination_id: Seq<u8>,
    pub created_at_ms: i64,
    pub ttl_seconds: u32,
    pub hop_limit: u16,
    pub priority: Priority,
    pub payload_length: u32,
}

/// A bundle as plain values.
pub struct WireBundleView {
    pub immutable: ImmutableHeaderView,
    pub relay: RelayHeader,
    pub encrypted_payload: Seq<u8>,
    pub sender_signature: Seq<u8>,
}

impl View for ImmutableBundleHeader {
    type V = ImmutableHeaderView;

    open spec fn view(&self) -> ImmutableHeaderView {
        ImmutableHeaderView {
            protocol_major: self.protocol_major,
            protocol_minor: self.protocol_minor,
            bundle_id: self.bundle_id@,
            bundle_type: self.bundle_type,
            sender_id: self.sender_id@,
            destination_id: self.destination_id@,
            created_at_ms: self.created_at_ms,
            ttl_seconds: self.ttl_seconds,
            hop_limit: self.hop_limit,
            priority: self.priority,
            payload_length: self.payload_length,
        }
    }
}

impl View for WireBundle {
    type V = WireBundleView;

    open spec fn view(&self) -> WireBundleView {
        WireBundleView {
            immutable: self.immutable@,
            relay: self.relay,
            encrypted_payload: self.encrypted_payload@,
            sender_signature: self.sender_signature@,
        }
    }
}

/// Identifiers are sixteen bytes long (true of every bundle value).
pub open spec fn header_ids_wf(h: ImmutableHeaderView) -> bool {
    h.bundle_id.len() == 16 && h.sender_id.len() == 16 && h.destination_id.len() == 16
}

// ---------------------------------------------------------------------------
// Shape
// ---------------------------------------------------------------------------

/// The protocol's shape rules, checked in this order.
pub open spec fn spec_validate_shape(b: WireBundleView) -> Result<(), WireError> {
    if b.immutable.protocol_major != PROTOCOL_MAJOR {
        Err(WireError::UnsupportedMajorVersion(b.immutable.protocol_major))
    } else if b.encrypted_payload.len() != b.immutable.payload_length {
        Err(WireError::PayloadLengthMismatch)
    } else if b.encrypted_payload.len() > MAX_TEXT_BUNDLE_BYTES {
        Err(WireError::BundleTooLarge)
    } else if b.immutable.hop_limit == 0 {
        Err(WireError::InvalidHopLimit)
    } else if b.sender_signature.len() != SIGNATURE_LENGTH {
        Err(WireError::InvalidSignatureLength)
    } else {
        Ok(())
    }
}

// ---------------------------------------------------------------------------
// Encoding
// ---------------------------------------------------------------------------

/// The signed fields 1 to 11, in key order.
pub open spec fn signed_entries(h: ImmutableHeaderView, payload: Seq<u8>) -> Seq<(u64, FieldValue)> {
    seq![
        (KEY_VERSION as u64, FieldValue::Uint(version_code(h.protocol_major, h.protocol_minor) as u64)),
        (KEY_BUNDLE_ID as u64, FieldValue::Bytes(h.bundle_id)),
        (KEY_BUNDLE_TYPE as u64, FieldValue::Uint(h.bundle_type.spec_code() as u64)),
        (KEY_SENDER_ID as u64, FieldValue::Bytes(h.sender_id)),
        (KEY_DESTINATION_ID as u64, FieldValue::Bytes(h.destination_id)),
        (KEY_CREATED_AT as u64, FieldValue::Int(h.created_at_ms)),
        (KEY_TTL_SECONDS as u64, FieldValue::Uint(h.ttl_seconds as u64)),
        (KEY_HOP_LIMIT as u64, FieldValue::Uint(h.hop_limit as u64)),
        (KEY_PRIORITY as u64, FieldValue::Uint(h.priority.spec_code() as u64)),
        (KEY_PAYLOAD_LENGTH as u64, FieldValue::Uint(h.payload_length as u64)),
        (KEY_ENCRYPTED_PAYLOAD as u64, FieldValue::Bytes(payload)),
    ]
}

/// All fourteen fields, in key order.
pub open spec fn bundle_entries(b: WireBundleView) -> Seq<(u64, FieldValue)> {
    signed_entries(b.immutable, b.encrypted_payload) + seq![
        (KEY_SIGNATURE as u64, FieldValue::Bytes(b.sender_signature)),
        (KEY_HOP_COUNT as u64, FieldValue::Uint(b.relay.hop_count as u64)),
        (KEY_RECEIVED_AT as u64, FieldValue::Int(b.relay.received_at_ms)),
    ]
}

/// The bytes the sender signs: the canonical map of fields 1 to 11.
pub open spec fn spec_signed_bytes(b: WireBundleView) -> Seq<u8> {
    enc_field_map(signed_entries(b.immutable, b.encrypted_payload))
}

/// A bundle's wire form: the canonical map of all fourteen fields.
pub open spec fn spec_encode_bundle(b: WireBundleView) -> Seq<u8> {
    enc_field_map(bundle_entries(b))
}

fn write_signed_fields(w: &mut CborWriter, header: &ImmutableBundleHeader, encrypted_payload: &[u8])
    ensures
        final(w)@ == old(w)@ + enc_entries(signed_entries(header@, encrypted_payload@)),
{
    let ghost es: Seq<(u64, FieldValue)> = Seq::empty();
    let ghost start = w@;
    assert(enc_entries(es) =~= Seq::<u8>::empty());
    let version = protocol_version_code(header.protocol_major, header.protocol_minor);
    put_uint(w, KEY_VERSION as u64, version as u64);
    proof {
        lemma_enc_entries_push(es, KEY_VERSION as u64, FieldValue::Uint(version as u64));
        es = es.push((KEY_VERSION as u64, FieldValue::Uint(version as u64)));
        assert(w@ =~= start + enc_entries(es));
    }
    put_bytes(w, KEY_BUNDLE_ID as u64, header.bundle_id.as_bytes().as_slice());
    proof {
        lemma_enc_entries_push(es, KEY_BUNDLE_ID as u64, FieldValue::Bytes(header.bundle_id@));
        es = es.push((KEY_BUNDLE_ID as u64, FieldValue::Bytes(header.bundle_id@)));
        assert(w@ =~= start + enc_entries(es));
    }
    put_uint(w, KEY_BUNDLE_TYPE as u64, header.bundle_type.code() as u64);
    proof {
        let v = FieldValue::Uint(header.bundle_type.spec_code() as u64);
        lemma_enc_entries_push(es, KEY_BUNDLE_TYPE as u64, v);
        es = es.push((KEY_BUNDLE_TYPE as u64, v));
        assert(w@ =~= start + enc_entries(es));
    }
    put_bytes(w, KEY_SENDER_ID as u64, header.sender_id.as_bytes().as_slice());
    proof {
        lemma_enc_entries_push(es, KEY_SENDER_ID as u64, FieldValue::Bytes(header.sender_id@));
        es = es.push((KEY_SENDER_ID as u64, FieldValue::Bytes(header.sender_id@)));
        assert(w@ =~= start + enc_entries(es));
    }
    put_bytes(w, KEY_DESTINATION_ID as u64, header.destination_id.as_bytes().as_slice());
    proof {
        let v = FieldValue::Bytes(header.destination_id@);
        lemma_enc_entries_push(es, KEY_DESTINATION_ID as u64, v);
        es = es.push((KEY_DESTINATION_ID as u64, v));
        assert(w@ =~= start + enc_entries(es));
    }
    put_int(w, KEY_CREATED_AT as u64, header.created_at_ms);
    proof {
        let v = FieldValue::Int(header.created_at_ms);
        lemma_enc_entries_push(es, KEY_CREATED_AT as u64, v);
        es = es.push((KEY_CREATED_AT as u64, v));
        assert(w@ =~= start + enc_entries(es));
    }
    put_uint(w, KEY_TTL_SECONDS as u64, header.ttl_seconds as u64);
    proof {
        let v = FieldValue::Uint(header.ttl_seconds as u64);
        lemma_enc_entries_push(es, KEY_TTL_SECONDS as u64, v);
        es = es.push((KEY_TTL_SECONDS as u64, v));
        assert(w@ =~= start + enc_entries(es));
    }
    put_uint(w, KEY_HOP_LIMIT as u64, header.hop_limit as u64);
    proof {
        let v = FieldValue::Uint(header.hop_limit as u64);
        lemma_enc_entries_push(es, KEY_HOP_LIMIT as u64, v);
        es = es.push((KEY_HOP_LIMIT as u64, v));
        assert(w@ =~= start + enc_entries(es));
    }
    put_uint(w, KEY_PRIORITY as u64, header.priority.code() as u64);
    proof {
        let v = FieldValue::Uint(header.priority.spec_code() as u64);
        lemma_enc_entries_push(es, KEY_PRIORITY as u64, v);
        es = es.push((KEY_PRIORITY as u64, v));
        assert(w@ =~= start + enc_entries(es));
    }
    put_uint(w, KEY_PAYLOAD_LENGTH as u64, header.payload_length as u64);
    proof {
        let v = FieldValue::Uint(header.payload_length as u64);
        lemma_enc_entries_push(es, KEY_PAYLOAD_LENGTH as u64, v);
        es = es.push((KEY_PAYLOAD_LENGTH as u64, v));
        assert(w@ =~= start + enc_entries(es));
    }
    put_bytes(w, KEY_ENCRYPTED_PAYLOAD as u64, encrypted_payload);
    proof {
        let v = FieldValue::Bytes(encrypted_payload@);
        lemma_enc_entries_push(es, KEY_ENCRYPTED_PAYLOAD as u64, v);
        es = es.push((KEY_ENCRYPTED_PAYLOAD as u64, v));
        assert(w@ =~= start + enc_entries(es));
        assert(es =~= signed_entries(header@, encrypted_payload@));
    }
}

fn encode_signed_fields(header: &ImmutableBundleHeader, encrypted_payload: &[u8]) -> (v: Vec<u8>)
    ensures
        v@ == enc_field_map(signed_entries(header@, encrypted_payload@)),
{
    let mut w = CborWriter::new();
    w.map(11);
    write_signed_fields(&mut w, header, encrypted_payload);
    assert(w@ =~= enc_field_map(signed_entries(header@, encrypted_payload@)));
    w.into_inner()
}


fn write_relay_fields(w: &mut CborWriter, b: &WireBundle)
    ensures
        final(w)@ == old(w)@ + enc_entries(
            seq![
                (KEY_SIGNATURE as u64, FieldValue::Bytes(b.sender_signature@)),
                (KEY_HOP_COUNT as u64, FieldValue::Uint(b.relay.hop_count as u64)),
                (KEY_RECEIVED_AT as u64, FieldValue::Int(b.relay.received_at_ms)),
            ],
        ),
{
    let ghost es: Seq<(u64, FieldValue)> = Seq::empty();
    let ghost start = w@;
    assert(enc_entries(es) =~= Seq::<u8>::empty());
    put_bytes(w, KEY_SIGNATURE as u64, b.sender_signature.as_slice());
    proof {
        let v = FieldValue::Bytes(b.sender_signature@);
        lemma_enc_entries_push(es, KEY_SIGNATURE as u64, v);
        es = es.push((KEY_SIGNATURE as u64, v));
        assert(w@ =~= start + enc_entries(es));
    }
    put_uint(w, KEY_HOP_COUNT as u64, b.relay.hop_count as u64);
    proof {
        let v = FieldValue::Uint(b.relay.hop_count as u64);
        lemma_enc_entries_push(es, KEY_HOP_COUNT as u64, v);
        es = es.push((KEY_HOP_COUNT as u64, v));
        assert(w@ =~= start + enc_entries(es));
    }
    put_int(w, KEY_RECEIVED_AT as u64, b.relay.received_at_ms);
    proof {
        let v = FieldValue::Int(b.relay.received_at_ms);
        lemma_enc_entries_push(es, KEY_RECEIVED_AT as u64, v);
        es = es.push((KEY_RECEIVED_AT as u64, v));
        assert(w@ =~= start + enc_entries(es));
        assert(es =~= seq![
            (KEY_SIGNATURE as u64, FieldValue::Bytes(b.sender_signature@)),
            (KEY_HOP_COUNT as u64, FieldValue::Uint(b.relay.hop_count as u64)),
            (KEY_RECEIVED_AT as u64, FieldValue::Int(b.relay.received_at_ms)),
        ]);
    }
}

/// Entries written one after the other read as one list.
proof fn lemma_enc_entries_append(a: Seq<(u64, FieldValue)>, b: Seq<(u64, FieldValue)>)
    ensures
        enc_entries(a + b) == enc_entries(a) + enc_entries(b),
    decreases a.len(),
{
    if a.len() == 0 {
        assert(a + b =~= b);
        assert(enc_entries(a) =~= Seq::<u8>::empty());
        assert(enc_entries(a + b) =~= enc_entries(a) + enc_entries(b));
    } else {
        assert((a + b).drop_first() =~= a.drop_first() + b);
        lemma_enc_entries_append(a.drop_first(), b);
        assert(enc_entries(a + b) =~= enc_entries(a) + enc_entries(b));
    }
}

// ---------------------------------------------------------------------------
// Decoding
// ---------------------------------------------------------------------------

pub open spec fn id_kind() -> FieldKind {
    FieldKind::Fixed { len: 16, err: WireError::InvalidIdentifier }
}

/// Which keys a bundle knows and how each is read; other keys are skipped.
pub open spec fn bundle_schema() -> Seq<Option<FieldKind>> {
    seq![
        None,
        Some(FieldKind::Uint),
        Some(id_kind()),
        Some(FieldKind::Uint),
        Some(id_kind()),
        Some(id_kind()),
        Some(FieldKind::Int),
        Some(FieldKind::Uint),
        Some(FieldKind::Uint),
        Some(FieldKind::Uint),
        Some(FieldKind::Uint),
        Some(FieldKind::Bytes),
        Some(FieldKind::Bytes),
        None,
        None,
        None,
        None,
        None,
        None,
        None,
        Some(FieldKind::Uint),
        Some(FieldKind::Int),
    ]
}

fn bundle_schema_exec() -> (v: Vec<Option<FieldKind>>)
    ensures
        v@ == bundle_schema(),
{
    let id = FieldKind::Fixed { len: 16, err: WireError::InvalidIdentifier };
    let v = vec![
        None,
        Some(FieldKind::Uint),
        Some(id),
        Some(FieldKind::Uint),
        Some(id),
        Some(id),
        Some(FieldKind::Int),
        Some(FieldKind::Uint),
        Some(FieldKind::Uint),
        Some(FieldKind::Uint),
        Some(FieldKind::Uint),
        Some(FieldKind::Bytes),
        Some(FieldKind::Bytes),
        None,
        None,
        None,
        None,
        None,
        None,
        None,
        Some(FieldKind::Uint),
        Some(FieldKind::Int),
    ];
    assert(v@ =~= bundle_schema());
    v
}

/// Building a bundle from its read fields: each required field in turn
/// (missing is `MissingField(key)`), with the range and code checks in
/// the order the fields are built.
pub open spec fn spec_build_bundle(t: Seq<Option<FieldValue>>) -> Result<WireBundleView, WireError> {
    if t[1] is None {
        Err(WireError::MissingField(KEY_VERSION))
    } else if uint_at(t, 1) / 256 > u8::MAX {
        Err(WireError::IntegerOutOfRange)
    } else if t[2] is None {
        Err(WireError::MissingField(KEY_BUNDLE_ID))
    } else if t[3] is None {
        Err(WireError::MissingField(KEY_BUNDLE_TYPE))
    } else if bundle_type_of_code(uint_at(t, 3)) is None {
        Err(WireError::InvalidBundleType(uint_at(t, 3)))
    } else if t[4] is None {
        Err(WireError::MissingField(KEY_SENDER_ID))
    } else if t[5] is None {
        Err(WireError::MissingField(KEY_DESTINATION_ID))
    } else if t[6] is None {
        Err(WireError::MissingField(KEY_CREATED_AT))
    } else if t[7] is None {
        Err(WireError::MissingField(KEY_TTL_SECONDS))
    } else if uint_at(t, 7) > u32::MAX {
        Err(WireError::IntegerOutOfRange)
    } else if t[8] is None {
        Err(WireError::MissingField(KEY_HOP_LIMIT))
    } else if uint_at(t, 8) > u16::MAX {
        Err(WireError::IntegerOutOfRange)
    } else if t[9] is None {
        Err(WireError::MissingField(KEY_PRIORITY))
    } else if priority_of_code(uint_at(t, 9)) is None {
        Err(WireError::InvalidPriority(uint_at(t, 9)))
    } else if t[10] is None {
        Err(WireError::MissingField(KEY_PAYLOAD_LENGTH))
    } else if uint_at(t, 10) > u32::MAX {
        Err(WireError::IntegerOutOfRange)
    } else if t[20] is None {
        Err(WireError::MissingField(KEY_HOP_COUNT))
    } else if uint_at(t, 20) > u16::MAX {
        Err(WireError::IntegerOutOfRange)
    } else if t[21] is None {
        Err(WireError::MissingField(KEY_RECEIVED_AT))
    } else if t[11] is None {
        Err(WireError::MissingField(KEY_ENCRYPTED_PAYLOAD))
    } else if t[12] is None {
        Err(WireError::MissingField(KEY_SIGNATURE))
    } else {
        Ok(
            WireBundleView {
                immutable: ImmutableHeaderView {
                    protocol_major: (uint_at(t, 1) / 256) as u8,
                    protocol_minor: (uint_at(t, 1) % 256) as u8,
                    bundle_id: bytes_at(t, 2),
                    bundle_type: bundle_type_of_code(uint_at(t, 3))->0,
                    sender_id: bytes_at(t, 4),
                    destination_id: bytes_at(t, 5),
                    created_at_ms: int_at(t, 6),
                    ttl_seconds: uint_at(t, 7) as u32,
                    hop_limit: uint_at(t, 8) as u16,
                    priority: priority_of_code(uint_at(t, 9))->0,
                    payload_length: uint_at(t, 10) as u32,
                },
                relay: RelayHeader {
                    hop_count: uint_at(t, 20) as u16,
                    received_at_ms: int_at(t, 21),
                },
                encrypted_payload: bytes_at(t, 11),
                sender_signature: bytes_at(t, 12),
            },
        )
    }
}

/// What `decode_cbor` gives for the bytes: too long is `BundleTooLarge`;
/// else the field map, the bundle built from it, and the shape rules.
pub open spec fn spec_decode_bundle(s: Seq<u8>) -> Result<WireBundleView, WireError> {
    if s.len() > MAX_TEXT_BUNDLE_BYTES + 4096 {
        Err(WireError::BundleTooLarge)
    } else {
        match spec_field_map(bundle_schema(), true, s) {
            Err(e) => Err(e),
            Ok(t) => match spec_build_bundle(t) {
                Err(e) => Err(e),
                Ok(b) => match spec_validate_shape(b) {
                    Err(e) => Err(e),
                    Ok(_) => Ok(b),
                },
            },
        }
    }
}

pub fn bundle_type_from(value: u64) -> (res: Result<BundleType, WireError>)
    ensures
        match bundle_type_of_code(value) {
            Some(t) => res == Ok::<BundleType, WireError>(t),
            None => res == Err::<BundleType, WireError>(WireError::InvalidBundleType(value)),
        },
{
    if value == 0x01 {
        Ok(BundleType::DirectMessage)
    } else if value == 0x02 {
        Ok(BundleType::DeliveryAck)
    } else if value == 0x04 {
        Ok(BundleType::Control)
    } else {
        Err(WireError::InvalidBundleType(value))
    }
}

pub fn priority_from(value: u64) -> (res: Result<Priority, WireError>)
    ensures
        match priority_of_code(value) {
            Some(p) => res == Ok::<Priority, WireError>(p),
            None => res == Err::<Priority, WireError>(WireError::InvalidPriority(value)),
        },
{
    if value == 0 {
        Ok(Priority::Bulk)
    } else if value == 1 {
        Ok(Priority::Normal)
    } else if value == 2 {
        Ok(Priority::High)
    } else if value == 3 {
        Ok(Priority::Emergency)
    } else {
        Err(WireError::InvalidPriority(value))
    }
}

pub fn u32_from(value: u64) -> (res: Result<u32, WireError>)
    ensures
        value <= u32::MAX ==> res == Ok::<u32, WireError>(value as u32),
        value > u32::MAX ==> res == Err::<u32, WireError>(WireError::IntegerOutOfRange),
{
    if value > u32::MAX as u64 {
        Err(WireError::IntegerOutOfRange)
    } else {
        Ok(value as u32)
    }
}

pub fn u16_from(value: u64) -> (res: Result<u16, WireError>)
    ensures
        value <= u16::MAX ==> res == Ok::<u16, WireError>(value as u16),
        value > u16::MAX ==> res == Err::<u16, WireError>(WireError::IntegerOutOfRange),
{
    if value > u16::MAX as u64 {
        Err(WireError::IntegerOutOfRange)
    } else {
        Ok(value as u16)
    }
}

/// The identifier in slot `key`, taken out of the table.
fn take_id(t: &mut Vec<Option<ExecField>>, key: usize) -> (o: Option<[u8; 16]>)
    requires
        key < old(t)@.len(),
        old(t)@[key as int] is None || (old(t)@[key as int] matches Some(ExecField::Bytes(b))
            && b@.len() == 16),
    ensures
        final(t)@ == old(t)@.update(key as int, None),
        o is None <==> old(t)@[key as int] is None,
        o matches Some(a) ==> old(t)@[key as int] matches Some(ExecField::Bytes(b)) && b@ == a@,
{
    match take_bytes(t, key) {
        Some(b) => Some(bytes_to_array16(b.as_slice())),
        None => None,
    }
}

fn build_bundle(t: Vec<Option<ExecField>>) -> (res: Result<WireBundle, WireError>)
    requires
        t@.len() == TABLE_LEN,
        table_fits(bundle_schema(), table_view(t@)),
    ensures
        match spec_build_bundle(table_view(t@)) {
            Ok(v) => res matches Ok(b) && b@ == v,
            Err(e) => res == Err::<WireBundle, WireError>(e),
        },
{
    let ghost tv = table_view(t@);
    let mut t = t;
    assert(forall|k: int| 0 <= k < TABLE_LEN ==> #[trigger] tv[k] == (match t@[k] {
        Some(f) => Some(f@),
        None => None,
    }));
    let version = match uint_slot(&t, 1) {
        None => return Err(WireError::MissingField(KEY_VERSION)),
        Some(v) => v,
    };
    if version / 256 > u8::MAX as u64 {
        return Err(WireError::IntegerOutOfRange);
    }
    let protocol_major = (version / 256) as u8;
    let protocol_minor = (version % 256) as u8;
    let bundle_id = match take_id(&mut t, 2) {
        None => return Err(WireError::MissingField(KEY_BUNDLE_ID)),
        Some(a) => BundleId::from_bytes(a),
    };
    let bundle_type = match uint_slot(&t, 3) {
        None => return Err(WireError::MissingField(KEY_BUNDLE_TYPE)),
        Some(v) => bundle_type_from(v)?,
    };
    let sender_id = match take_id(&mut t, 4) {
        None => return Err(WireError::MissingField(KEY_SENDER_ID)),
        Some(a) => UserId::from_bytes(a),
    };
    let destination_id = match take_id(&mut t, 5) {
        None => return Err(WireError::MissingField(KEY_DESTINATION_ID)),
        Some(a) => UserId::from_bytes(a),
    };
    let created_at_ms = match int_slot(&t, 6) {
        None => return Err(WireError::MissingField(KEY_CREATED_AT)),
        Some(v) => v,
    };
    let ttl_seconds = match uint_slot(&t, 7) {
        None => return Err(WireError::MissingField(KEY_TTL_SECONDS)),
        Some(v) => u32_from(v)?,
    };
    let hop_limit = match uint_slot(&t, 8) {
        None => return Err(WireError::MissingField(KEY_HOP_LIMIT)),
        Some(v) => u16_from(v)?,
    };
    let priority = match uint_slot(&t, 9) {
        None => return Err(WireError::MissingField(KEY_PRIORITY)),
        Some(v) => priority_from(v)?,
    };
    let payload_length = match uint_slot(&t, 10) {
        None => return Err(WireError::MissingField(KEY_PAYLOAD_LENGTH)),
        Some(v) => u32_from(v)?,
    };
    let hop_count = match uint_slot(&t, 20) {
        None => return Err(WireError::MissingField(KEY_HOP_COUNT)),
        Some(v) => u16_from(v)?,
    };
    let received_at_ms = match int_slot(&t, 21) {
        None => return Err(WireError::MissingField(KEY_RECEIVED_AT)),
        Some(v) => v,
    };
    let encrypted_payload = match take_bytes(&mut t, 11) {
        None => return Err(WireError::MissingField(KEY_ENCRYPTED_PAYLOAD)),
        Some(v) => v,
    };
    let sender_signature = match take_bytes(&mut t, 12) {
        None => return Err(WireError::MissingField(KEY_SIGNATURE)),
        Some(v) => v,
    };
    let b = WireBundle {
        immutable: ImmutableBundleHeader {
            protocol_major,
            protocol_minor,
            bundle_id,
            bundle_type,
            sender_id,
            destination_id,
            created_at_ms,
            ttl_seconds,
            hop_limit,
            priority,
            payload_length,
        },
        relay: RelayHeader { hop_count, received_at_ms },
        encrypted_payload,
        sender_signature,
    };
    Ok(b)
}

/// `x` clamped to the range of `i64`.
pub open spec fn saturate_i64(x: int) -> int {
    if x > i64::MAX {
        i64::MAX as int
    } else if x < i64::MIN {
        i64::MIN as int
    } else {
        x
    }
}

/// Expiry is judged against the local first-seen time, not the sender's
/// clock: a bundle is expired once `now - first_seen` (saturating) reaches
/// its time to live.
pub open spec fn spec_is_expired(ttl_seconds: u32, now_ms: i64, first_seen_at_ms: i64) -> bool {
    saturate_i64(now_ms - first_seen_at_ms) >= ttl_seconds * 1000
}

/// A bundle is expired exactly when at least its time to live has passed
/// since this node first saw it: the elapsed time, not the clock reading,
/// decides.
pub proof fn lemma_expired_iff_elapsed(ttl_seconds: u32, now_ms: i64, first_seen_at_ms: i64)
    ensures
        spec_is_expired(ttl_seconds, now_ms, first_seen_at_ms) <==> now_ms - first_seen_at_ms
            >= ttl_seconds * 1000,
{
}

/// Shifting both times by the same amount does not change expiry.
pub proof fn lemma_expiry_shift_invariant(ttl_seconds: u32, now_ms: i64, first_seen_at_ms: i64, shift: int)
    requires
        i64::MIN <= now_ms + shift <= i64::MAX,
        i64::MIN <= first_seen_at_ms + shift <= i64::MAX,
    ensures
        spec_is_expired(ttl_seconds, (now_ms + shift) as i64, (first_seen_at_ms + shift) as i64)
            == spec_is_expired(ttl_seconds, now_ms, first_seen_at_ms),
{
    lemma_expired_iff_elapsed(ttl_seconds, now_ms, first_seen_at_ms);
    lemma_expired_iff_elapsed(ttl_seconds, (now_ms + shift) as i64, (first_seen_at_ms + shift) as i64);
}

impl WireBundle {
    pub fn is_expired(&self, now_ms: i64, first_seen_at_ms: i64) -> (r: bool)
        ensures
            r == spec_is_expired(self.immutable.ttl_seconds, now_ms, first_seen_at_ms),
    {
        let ttl_ms: i64 = (self.immutable.ttl_seconds as i64) * 1000;
        let diff: i128 = (now_ms as i128) - (first_seen_at_ms as i128);
        let elapsed: i64 = if diff > i64::MAX as i128 {
            i64::MAX
        } else if diff < i64::MIN as i128 {
            i64::MIN
        } else {
            diff as i64
        };
        elapsed >= ttl_ms
    }

    pub fn protocol_version(&self) -> (v: u16)
        ensures
            v == version_code(self.immutable.protocol_major, self.immutable.protocol_minor),
    {
        protocol_version_code(self.immutable.protocol_major, self.immutable.protocol_minor)
    }

    pub fn validate_shape(&self) -> (res: Result<(), WireError>)
        ensures
            res == spec_validate_shape(self@),
    {
        if self.immutable.protocol_major != PROTOCOL_MAJOR {
            return Err(WireError::UnsupportedMajorVersion(self.immutable.protocol_major));
        }
        if self.encrypted_payload.len() != self.immutable.payload_length as usize {
            return Err(WireError::PayloadLengthMismatch);
        }
        if self.encrypted_payload.len() > MAX_TEXT_BUNDLE_BYTES {
            return Err(WireError::BundleTooLarge);
        }
        if self.immutable.hop_limit == 0 {
            return Err(WireError::InvalidHopLimit);
        }
        if self.sender_signature.len() != SIGNATURE_LENGTH {
            return Err(WireError::InvalidSignatureLength);
        }
        Ok(())
    }

    /// The bytes the sender signs, for a bundle of valid shape.
    pub fn signed_bytes(&self) -> (res: Result<Vec<u8>, WireError>)
        ensures
            match spec_validate_shape(self@) {
                Ok(_) => res matches Ok(v) && v@ == spec_signed_bytes(self@),
                Err(e) => res == Err::<Vec<u8>, WireError>(e),
            },
    {
        self.validate_shape()?;
        Ok(encode_signed_fields(&self.immutable, self.encrypted_payload.as_slice()))
    }

    /// The wire form, for a bundle of valid shape.
    pub fn encode_cbor(&self) -> (res: Result<Vec<u8>, WireError>)
        ensures
            match spec_validate_shape(self@) {
                Ok(_) => res matches Ok(v) && v@ == spec_encode_bundle(self@),
                Err(e) => res == Err::<Vec<u8>, WireError>(e),
            },
    {
        self.validate_shape()?;
        let mut w = CborWriter::new();
        w.map(14);
        write_signed_fields(&mut w, &self.immutable, self.encrypted_payload.as_slice());
        write_relay_fields(&mut w, self);
        proof {
            let tail = seq![
                (KEY_SIGNATURE as u64, FieldValue::Bytes(self.sender_signature@)),
                (KEY_HOP_COUNT as u64, FieldValue::Uint(self.relay.hop_count as u64)),
                (KEY_RECEIVED_AT as u64, FieldValue::Int(self.relay.received_at_ms)),
            ];
            lemma_enc_entries_append(signed_entries(self.immutable@, self.encrypted_payload@), tail);
        }
        assert(w@ =~= spec_encode_bundle(self@));
        Ok(w.into_inner())
    }

    pub fn decode_cbor(bytes: &[u8]) -> (res: Result<WireBundle, WireError>)
        ensures
            match spec_decode_bundle(bytes@) {
                Ok(v) => res matches Ok(b) && b@ == v,
                Err(e) => res == Err::<WireBundle, WireError>(e),
            },
    {
        if bytes.len() > MAX_TEXT_BUNDLE_BYTES + 4096 {
            return Err(WireError::BundleTooLarge);
        }
        let schema = bundle_schema_exec();
        let table = read_field_map(bytes, schema.as_slice(), true)?;
        proof { lemma_field_map_fits(bundle_schema(), true, bytes@); }
        let bundle = build_bundle(table)?;
        bundle.validate_shape()?;
        Ok(bundle)
    }
}


// ---------------------------------------------------------------------------
// Laws
// ---------------------------------------------------------------------------

proof fn lemma_type_code(t: BundleType)
    ensures
        bundle_type_of_code(t.spec_code() as u64) == Some(t),
{
}

proof fn lemma_priority_code(p: Priority)
    ensures
        priority_of_code(p.spec_code() as u64) == Some(p),
{
}

/// The wire form of a bundle is at most `MAX_TEXT_BUNDLE_BYTES + 512` bytes
/// long, well inside what the reader takes.
pub proof fn lemma_encoded_bundle_len(b: WireBundleView)
    requires
        spec_validate_shape(b) is Ok,
        header_ids_wf(b.immutable),
    ensures
        spec_encode_bundle(b).len() <= MAX_TEXT_BUNDLE_BYTES + 512,
{
    let es = bundle_entries(b);
    lemma_entries_len(es);
    reveal_with_fuel(entries_bound, 15);
    assert(entries_bound(es) <= 14 * 18 + 3 * 16 + MAX_TEXT_BUNDLE_BYTES + SIGNATURE_LENGTH);
}

/// The fourteen fields of a bundle of valid shape are what the bundle
/// schema reads: distinct known keys with readable values.
proof fn lemma_bundle_entries_fit(b: WireBundleView)
    requires
        spec_validate_shape(b) is Ok,
        header_ids_wf(b.immutable),
    ensures
        bundle_entries(b).len() == 14,
        entries_fit(bundle_schema(), bundle_entries(b)),
{
    let es = bundle_entries(b);
    let schema = bundle_schema();
    assert(es.len() == 14);
    reveal(entries_fit);
    assert forall|i: int| 0 <= i < es.len() implies (#[trigger] es[i]).0 < schema.len()
        && schema[es[i].0 as int] is Some && value_readable(schema[es[i].0 as int]->0, es[i].1) by {
    }
}

/// Decoding what `encode_cbor` writes gives the bundle back, for every
/// bundle of valid shape.
pub proof fn lemma_bundle_round_trip(b: WireBundleView)
    requires
        spec_validate_shape(b) is Ok,
        header_ids_wf(b.immutable),
    ensures
        spec_decode_bundle(spec_encode_bundle(b)) == Ok::<WireBundleView, WireError>(b),
{
    let es = bundle_entries(b);
    let schema = bundle_schema();
    lemma_encoded_bundle_len(b);
    lemma_bundle_entries_fit(b);
    lemma_field_map_enc(schema, true, es);
    let t = table_after(empty_table(), es);
    assert forall|k: int| 0 <= k < TABLE_LEN implies #[trigger] t[k] == (if k == 1 || k == 2 || k == 3
        || k == 4 || k == 5 || k == 6 || k == 7 || k == 8 || k == 9 || k == 10 || k == 11 || k == 12
        || k == 20 || k == 21 {
        Some(es[if k <= 12 { k - 1 } else { k - 8 }].1)
    } else {
        None::<FieldValue>
    }) by {
        lemma_table_after(empty_table(), es, k);
        if k <= 12 && k >= 1 {
            assert(es[k - 1].0 == k);
        } else if k == 20 || k == 21 {
            assert(es[k - 8].0 == k);
        }
    }
    lemma_type_code(b.immutable.bundle_type);
    lemma_priority_code(b.immutable.priority);
    let version = version_code(b.immutable.protocol_major, b.immutable.protocol_minor) as u64;
    assert(version / 256 == b.immutable.protocol_major);
    assert(version % 256 == b.immutable.protocol_minor);
    assert(spec_build_bundle(t) == Ok::<WireBundleView, WireError>(b));
}


/// The signed bytes depend only on the immutable header and the payload:
/// relays may change the hop count and receive time without breaking the
/// sender's signature.
pub proof fn lemma_signed_bytes_ignore_relay(a: WireBundleView, b: WireBundleView)
    requires
        a.immutable == b.immutable,
        a.encrypted_payload == b.encrypted_payload,
    ensures
        spec_signed_bytes(a) == spec_signed_bytes(b),
{
}

/// Bytes after an encoded bundle are refused as trailing data, as long as
/// the whole input stays within the reader's length limit (past it the
/// input is refused as too large before it is read).
pub proof fn lemma_trailing_bytes_refused(b: WireBundleView, rest: Seq<u8>)
    requires
        spec_validate_shape(b) is Ok,
        header_ids_wf(b.immutable),
        rest.len() > 0,
        spec_encode_bundle(b).len() + rest.len() <= MAX_TEXT_BUNDLE_BYTES + 4096,
    ensures
        spec_decode_bundle(spec_encode_bundle(b) + rest) == Err::<WireBundleView, WireError>(
            WireError::TrailingCbor,
        ),
{
    lemma_bundle_entries_fit(b);
    lemma_field_map_trailing(bundle_schema(), true, bundle_entries(b), rest);
}

/// The wire form of a bundle is the map head for fourteen entries, the
/// signed entries exactly as they stand in the signed bytes (after their
/// own map head), then the signature as a 64-byte string under key 12, the
/// hop count under key 20 and the receive time under key 21.
pub proof fn lemma_encoded_bundle_split(b: WireBundleView)
    requires
        b.sender_signature.len() == SIGNATURE_LENGTH,
    ensures
        spec_encode_bundle(b) == seq![0xaeu8] + spec_signed_bytes(b).drop_first() + seq![
            0x0cu8,
            0x58u8,
            0x40u8,
        ] + b.sender_signature + seq![0x14u8] + enc_uint(b.relay.hop_count as u64) + seq![0x15u8]
            + enc_int(b.relay.received_at_ms),
{
    let signed = signed_entries(b.immutable, b.encrypted_payload);
    let relay = seq![
        (KEY_SIGNATURE as u64, FieldValue::Bytes(b.sender_signature)),
        (KEY_HOP_COUNT as u64, FieldValue::Uint(b.relay.hop_count as u64)),
        (KEY_RECEIVED_AT as u64, FieldValue::Int(b.relay.received_at_ms)),
    ];
    assert(bundle_entries(b) == signed + relay);
    lemma_enc_entries_append(signed, relay);
    assert(signed.len() == 11);
    assert(enc_map(14) =~= seq![0xaeu8]);
    assert(enc_map(11) =~= seq![0xabu8]);
    assert(spec_signed_bytes(b).drop_first() =~= enc_entries(signed));
    reveal(enc_field_value);
    reveal_with_fuel(enc_entries, 4);
    assert(head(MAJOR_BYTES, 64) =~= seq![0x58u8, 0x40u8]);
    assert(enc_uint(12) =~= seq![0x0cu8]);
    assert(enc_uint(20) =~= seq![0x14u8]);
    assert(enc_uint(21) =~= seq![0x15u8]);
    assert(enc_entries(relay) =~= seq![0x0cu8, 0x58u8, 0x40u8] + b.sender_signature + seq![0x14u8]
        + enc_uint(b.relay.hop_count as u64) + seq![0x15u8] + enc_int(b.relay.received_at_ms));
    assert(spec_encode_bundle(b) =~= seq![0xaeu8] + spec_signed_bytes(b).drop_first() + seq![
        0x0cu8,
        0x58u8,
        0x40u8,
    ] + b.sender_signature + seq![0x14u8] + enc_uint(b.relay.hop_count as u64) + seq![0x15u8]
        + enc_int(b.relay.received_at_ms));
}

/// Different headers or payloads give different signed bytes: for two
/// bundles of valid shape, equal signed bytes mean equal immutable headers
/// and equal payloads, so a signature made over one does not cover the
/// other.
pub proof fn lemma_signed_bytes_injective(a: WireBundleView, b: WireBundleView)
    requires
        spec_validate_shape(a) is Ok,
        spec_validate_shape(b) is Ok,
        header_ids_wf(a.immutable),
        header_ids_wf(b.immutable),
        spec_signed_bytes(a) == spec_signed_bytes(b),
    ensures
        a.immutable == b.immutable,
        a.encrypted_payload == b.encrypted_payload,
{
    let b2 = WireBundleView {
        immutable: b.immutable,
        relay: a.relay,
        encrypted_payload: b.encrypted_payload,
        sender_signature: a.sender_signature,
    };
    assert(spec_signed_bytes(b2) == spec_signed_bytes(b));
    lemma_encoded_bundle_split(a);
    lemma_encoded_bundle_split(b2);
    assert(spec_encode_bundle(a) == spec_encode_bundle(b2));
    lemma_bundle_round_trip(a);
    lemma_bundle_round_trip(b2);
}

} // verus!
