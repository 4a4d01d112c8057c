//! Session control payloads: each a canonical CBOR map with keys 1, 2, ...
//! Unknown keys are skipped; a repeated key keeps its last value.
use vstd::prelude::*;
use crate::error::WireError;
use crate::types::{
    BundleId, BundleType, DiscoveryId, Priority, UserId, bundle_type_of_code, priority_of_code,
    group_id_lemmas,
};
use crate::cbor::{CborWriter, MAX_VALUE_BYTES, enc_map, enc_uint};
use crate::bundle::{bundle_type_from, priority_from};
use crate::fields::{
    FieldKind, FieldValue, ExecField, TABLE_LEN, table_view, uint_at, bytes_at, ids_at,
    enc_field_map, enc_entries, entries_fit, table_after, empty_table, spec_field_map,
    read_field_map, put_uint, put_bytes, put_id_list, uint_slot, take_bytes, take_ids,
    lemma_field_map_enc, lemma_field_map_fits, lemma_table_after, lemma_enc_entries_push,
    bytes_to_array16, bytes_to_array32, value_readable, enc_entry, enc_field_value,
};

verus! {

broadcast use group_id_lemmas;

pub const CAPABILITY_TEXT: u32 = 0x01;
pub const ERROR_UNSUPPORTED_VERSION: u16 = 0x0001;

pub open spec fn id16_kind() -> FieldKind {
    FieldKind::Fixed { len: 16, err: WireError::InvalidIdentifier }
}

pub open spec fn key32_kind() -> FieldKind {
    FieldKind::Fixed { len: 32, err: WireError::InvalidControlPayload }
}

/// A field map with a single entry reads back as that entry.
proof fn lemma_single_entry(schema: Seq<Option<FieldKind>>, key: u64, v: FieldValue)
    requires
        1 <= key < schema.len() <= TABLE_LEN,
        schema[key as int] is Some,
        value_readable(schema[key as int]->0, v),
    ensures
        spec_field_map(schema, false, enc_field_map(seq![(key, v)])) == Ok::<
            Seq<Option<FieldValue>>,
            WireError,
        >(empty_table().update(key as int, Some(v))),
{
    let es = seq![(key, v)];
    assert(entries_fit(schema, es)) by {
        reveal(entries_fit);
    }
    lemma_field_map_enc(schema, false, es);
    assert(es.drop_first() =~= Seq::<(u64, FieldValue)>::empty());
    assert(table_after(empty_table().update(key as int, Some(v)), es.drop_first()) == empty_table().update(key as int, Some(v)));
}

/// Writes a map of one entry holding a byte string.
fn encode_single_bytes(key: u64, value: &[u8]) -> (out: Vec<u8>)
    ensures
        out@ == enc_field_map(seq![(key, FieldValue::Bytes(value@))]),
{
    let mut w = CborWriter::new();
    w.map(1);
    put_bytes(&mut w, key, value);
    proof {
        let es = seq![(key, FieldValue::Bytes(value@))];
        lemma_enc_entries_push(Seq::empty(), key, FieldValue::Bytes(value@));
        assert(Seq::<(u64, FieldValue)>::empty().push((key, FieldValue::Bytes(value@))) =~= es);
        assert(enc_entries(Seq::<(u64, FieldValue)>::empty()) =~= Seq::<u8>::empty());
    }
    assert(w@ =~= enc_field_map(seq![(key, FieldValue::Bytes(value@))]));
    w.into_inner()
}

// ---------------------------------------------------------------------------
// HELLO
// ---------------------------------------------------------------------------

#[derive(Clone, Debug, PartialEq, Eq)]
pub struct HelloPayload {
    pub protocol_major: u8,
    pub protocol_minor: u8,
    pub discovery_id: DiscoveryId,
    pub session_nonce: [u8; 32],
    pub capabilities: u32,
    pub max_frame_size: u32,
}

pub struct HelloView {
    pub protocol_major: u8,
    pub protocol_minor: u8,
    pub discovery_id: Seq<u8>,
    pub session_nonce: Seq<u8>,
    pub capabilities: u32,
    pub max_frame_size: u32,
}

impl View for HelloPayload {
    type V = HelloView;

    open spec fn view(&self) -> HelloView {
        HelloView {
            protocol_major: self.protocol_major,
            protocol_minor: self.protocol_minor,
            discovery_id: self.discovery_id@,
            session_nonce: self.session_nonce@,
            capabilities: self.capabilities,
            max_frame_size: self.max_frame_size,
        }
    }
}

pub open spec fn hello_entries(h: HelloView) -> Seq<(u64, FieldValue)> {
    seq![
        (1u64, FieldValue::Uint(h.protocol_major as u64)),
        (2u64, FieldValue::Uint(h.protocol_minor as u64)),
        (3u64, FieldValue::Bytes(h.discovery_id)),
        (4u64, FieldValue::Bytes(h.session_nonce)),
        (5u64, FieldValue::Uint(h.capabilities as u64)),
        (6u64, FieldValue::Uint(h.max_frame_size as u64)),
    ]
}

pub open spec fn hello_schema() -> Seq<Option<FieldKind>> {
    seq![
        None,
        Some(FieldKind::Uint8),
        Some(FieldKind::Uint8),
        Some(id16_kind()),
        Some(key32_kind()),
        Some(FieldKind::Uint32),
        Some(FieldKind::Uint32),
    ]
}

pub open spec fn spec_decode_hello(s: Seq<u8>) -> Result<HelloView, WireError> {
    match spec_field_map(hello_schema(), false, s) {
        Err(e) => Err(e),
        Ok(t) => if t[1] is None {
            Err(WireError::MissingField(1))
        } else if t[2] is None {
            Err(WireError::MissingField(2))
        } else if t[3] is None {
            Err(WireError::MissingField(3))
        } else if t[4] is None {
            Err(WireError::MissingField(4))
        } else if t[5] is None {
            Err(WireError::MissingField(5))
        } else if t[6] is None {
            Err(WireError::MissingField(6))
        } else {
            Ok(
                HelloView {
                    protocol_major: uint_at(t, 1) as u8,
                    protocol_minor: uint_at(t, 2) as u8,
                    discovery_id: bytes_at(t, 3),
                    session_nonce: bytes_at(t, 4),
                    capabilities: uint_at(t, 5) as u32,
                    max_frame_size: uint_at(t, 6) as u32,
                },
            )
        },
    }
}

impl HelloPayload {
    pub fn encode(&self) -> (out: Vec<u8>)
        ensures
            out@ == enc_field_map(hello_entries(self@)),
    {
        let mut w = CborWriter::new();
        w.map(6);
        let ghost start = w@;
        let ghost mut es: Seq<(u64, FieldValue)> = Seq::empty();
        assert(enc_entries(es) =~= Seq::<u8>::empty());
        put_uint(&mut w, 1, self.protocol_major as u64);
        proof {
            lemma_enc_entries_push(es, 1, FieldValue::Uint(self.protocol_major as u64));
            es = es.push((1, FieldValue::Uint(self.protocol_major as u64)));
        }
        put_uint(&mut w, 2, self.protocol_minor as u64);
        proof {
            lemma_enc_entries_push(es, 2, FieldValue::Uint(self.protocol_minor as u64));
            es = es.push((2, FieldValue::Uint(self.protocol_minor as u64)));
        }
        put_bytes(&mut w, 3, self.discovery_id.as_bytes().as_slice());
        proof {
            lemma_enc_entries_push(es, 3, FieldValue::Bytes(self.discovery_id@));
            es = es.push((3, FieldValue::Bytes(self.discovery_id@)));
        }
        put_bytes(&mut w, 4, self.session_nonce.as_slice());
        proof {
            lemma_enc_entries_push(es, 4, FieldValue::Bytes(self.session_nonce@));
            es = es.push((4, FieldValue::Bytes(self.session_nonce@)));
        }
        put_uint(&mut w, 5, self.capabilities as u64);
        proof {
            lemma_enc_entries_push(es, 5, FieldValue::Uint(self.capabilities as u64));
            es = es.push((5, FieldValue::Uint(self.capabilities as u64)));
        }
        put_uint(&mut w, 6, self.max_frame_size as u64);
        proof {
            lemma_enc_entries_push(es, 6, FieldValue::Uint(self.max_frame_size as u64));
            es = es.push((6, FieldValue::Uint(self.max_frame_size as u64)));
            assert(es =~= hello_entries(self@));
        }
        assert(w@ =~= enc_field_map(hello_entries(self@)));
        w.into_inner()
    }

    pub fn decode(bytes: &[u8]) -> (res: Result<HelloPayload, WireError>)
        ensures
            match spec_decode_hello(bytes@) {
                Ok(v) => res matches Ok(h) && h@ == v,
                Err(e) => res == Err::<HelloPayload, WireError>(e),
            },
    {
        let id = FieldKind::Fixed { len: 16, err: WireError::InvalidIdentifier };
        let key = FieldKind::Fixed { len: 32, err: WireError::InvalidControlPayload };
        let schema = vec![
            None,
            Some(FieldKind::Uint8),
            Some(FieldKind::Uint8),
            Some(id),
            Some(key),
            Some(FieldKind::Uint32),
            Some(FieldKind::Uint32),
        ];
        assert(schema@ =~= hello_schema());
        let mut t = read_field_map(bytes, schema.as_slice(), false)?;
        proof { lemma_field_map_fits(hello_schema(), false, bytes@); }
        let ghost tv = table_view(t@);
        assert(forall|k: int| 0 <= k < TABLE_LEN ==> #[trigger] tv[k] == (match t@[k] {
            Some(f) => Some(f@),
            None => None,
        }));
        let major = match uint_slot(&t, 1) {
            None => return Err(WireError::MissingField(1)),
            Some(v) => v as u8,
        };
        let minor = match uint_slot(&t, 2) {
            None => return Err(WireError::MissingField(2)),
            Some(v) => v as u8,
        };
        let discovery = match take_bytes(&mut t, 3) {
            None => return Err(WireError::MissingField(3)),
            Some(b) => DiscoveryId::from_bytes(bytes_to_array16(b.as_slice())),
        };
        let nonce = match take_bytes(&mut t, 4) {
            None => return Err(WireError::MissingField(4)),
            Some(b) => bytes_to_array32(b.as_slice()),
        };
        let capabilities = match uint_slot(&t, 5) {
            None => return Err(WireError::MissingField(5)),
            Some(v) => v as u32,
        };
        let max_frame = match uint_slot(&t, 6) {
            None => return Err(WireError::MissingField(6)),
            Some(v) => v as u32,
        };
        Ok(HelloPayload {
            protocol_major: major,
            protocol_minor: minor,
            discovery_id: discovery,
            session_nonce: nonce,
            capabilities,
            max_frame_size: max_frame,
        })
    }
}

/// Decoding an encoded HELLO gives it back.
pub proof fn lemma_hello_round_trip(h: HelloView)
    requires
        h.discovery_id.len() == 16,
        h.session_nonce.len() == 32,
    ensures
        spec_decode_hello(enc_field_map(hello_entries(h))) == Ok::<HelloView, WireError>(h),
{
    let es = hello_entries(h);
    let schema = hello_schema();
    assert(entries_fit(schema, es)) by {
        reveal(entries_fit);
    }
    lemma_field_map_enc(schema, false, es);
    let t = table_after(empty_table(), es);
    assert forall|k: int| 1 <= k <= 6 implies #[trigger] t[k] == Some(es[k - 1].1) by {
        lemma_table_after(empty_table(), es, k);
        assert(es[k - 1].0 == k);
    }
}


// ---------------------------------------------------------------------------
// KEY_INIT / KEY_REPLY
// ---------------------------------------------------------------------------

#[derive(Clone, Debug, PartialEq, Eq)]
pub struct KeyPayload {
    pub ephemeral_public: [u8; 32],
}

pub open spec fn key_schema() -> Seq<Option<FieldKind>> {
    seq![None, Some(key32_kind())]
}

/// What `KeyPayload::decode` gives: the 32-byte ephemeral public key.
pub open spec fn spec_decode_key(s: Seq<u8>) -> Result<Seq<u8>, WireError> {
    match spec_field_map(key_schema(), false, s) {
        Err(e) => Err(e),
        Ok(t) => if t[1] is None {
            Err(WireError::MissingField(1))
        } else {
            Ok(bytes_at(t, 1))
        },
    }
}

impl KeyPayload {
    pub fn encode(&self) -> (out: Vec<u8>)
        ensures
            out@ == enc_field_map(seq![(1u64, FieldValue::Bytes(self.ephemeral_public@))]),
    {
        encode_single_bytes(1, self.ephemeral_public.as_slice())
    }

    pub fn decode(bytes: &[u8]) -> (res: Result<KeyPayload, WireError>)
        ensures
            match spec_decode_key(bytes@) {
                Ok(v) => res matches Ok(k) && k.ephemeral_public@ == v,
                Err(e) => res == Err::<KeyPayload, WireError>(e),
            },
    {
        let schema = vec![None, Some(FieldKind::Fixed { len: 32, err: WireError::InvalidControlPayload })];
        assert(schema@ =~= key_schema());
        let mut t = read_field_map(bytes, schema.as_slice(), false)?;
        proof { lemma_field_map_fits(key_schema(), false, bytes@); }
        let ghost tv = table_view(t@);
        assert(tv[1] == opt_view(t@[1]));
        match take_bytes(&mut t, 1) {
            None => Err(WireError::MissingField(1)),
            Some(b) => Ok(KeyPayload { ephemeral_public: bytes_to_array32(b.as_slice()) }),
        }
    }
}

pub open spec fn opt_view(o: Option<ExecField>) -> Option<FieldValue> {
    match o {
        Some(f) => Some(f@),
        None => None,
    }
}

/// Decoding an encoded key payload gives the key back.
pub proof fn lemma_key_round_trip(k: Seq<u8>)
    requires
        k.len() == 32,
    ensures
        spec_decode_key(enc_field_map(seq![(1u64, FieldValue::Bytes(k))])) == Ok::<Seq<u8>, WireError>(k),
{
    lemma_single_entry(key_schema(), 1, FieldValue::Bytes(k));
}

// ---------------------------------------------------------------------------
// INVENTORY_SUMMARY
// ---------------------------------------------------------------------------

#[derive(Clone, Debug, PartialEq, Eq)]
pub struct InventorySummary {
    pub bundle_ids: Vec<BundleId>,
}

/// The identifiers' bytes, in order.
pub open spec fn ids_view(ids: Seq<BundleId>) -> Seq<Seq<u8>> {
    ids.map_values(|i: BundleId| i@)
}

pub open spec fn inventory_schema() -> Seq<Option<FieldKind>> {
    seq![None, Some(FieldKind::IdList)]
}

/// What `InventorySummary::decode` gives: the list of bundle identifiers.
pub open spec fn spec_decode_inventory(s: Seq<u8>) -> Result<Seq<Seq<u8>>, WireError> {
    match spec_field_map(inventory_schema(), false, s) {
        Err(e) => Err(e),
        Ok(t) => if t[1] is None {
            Err(WireError::MissingField(1))
        } else {
            Ok(ids_at(t, 1))
        },
    }
}

impl InventorySummary {
    pub fn encode(&self) -> (out: Vec<u8>)
        ensures
            out@ == enc_field_map(seq![(1u64, FieldValue::IdList(ids_view(self.bundle_ids@)))]),
    {
        let mut raw: Vec<[u8; 16]> = Vec::new();
        let mut i: usize = 0;
        while i < self.bundle_ids.len()
            invariant
                i <= self.bundle_ids@.len(),
                raw@.len() == i,
                forall|j: int| 0 <= j < i ==> #[trigger] raw@[j]@ == self.bundle_ids@[j]@,
            decreases self.bundle_ids@.len() - i,
        {
            raw.push(*self.bundle_ids[i].as_bytes());
            i = i + 1;
        }
        assert(raw@.map_values(|a: [u8; 16]| a@) =~= ids_view(self.bundle_ids@));
        let mut w = CborWriter::new();
        w.map(1);
        put_id_list(&mut w, 1, raw.as_slice());
        let ghost v = FieldValue::IdList(ids_view(self.bundle_ids@));
        proof {
            lemma_enc_entries_push(Seq::empty(), 1, v);
            assert(Seq::<(u64, FieldValue)>::empty().push((1u64, v)) =~= seq![(1u64, v)]);
            assert(enc_entries(Seq::<(u64, FieldValue)>::empty()) =~= Seq::<u8>::empty());
        }
        assert(w@ =~= enc_field_map(seq![(1u64, v)]));
        w.into_inner()
    }

    pub fn decode(bytes: &[u8]) -> (res: Result<InventorySummary, WireError>)
        ensures
            match spec_decode_inventory(bytes@) {
                Ok(v) => res matches Ok(s) && ids_view(s.bundle_ids@) == v,
                Err(e) => res == Err::<InventorySummary, WireError>(e),
            },
    {
        let schema = vec![None, Some(FieldKind::IdList)];
        assert(schema@ =~= inventory_schema());
        let mut t = read_field_map(bytes, schema.as_slice(), false)?;
        proof { lemma_field_map_fits(inventory_schema(), false, bytes@); }
        let ghost tv = table_view(t@);
        assert(tv[1] == opt_view(t@[1]));
        match take_ids(&mut t, 1) {
            None => Err(WireError::MissingField(1)),
            Some(raw) => {
                let mut ids: Vec<BundleId> = Vec::new();
                let mut i: usize = 0;
                while i < raw.len()
                    invariant
                        i <= raw@.len(),
                        ids@.len() == i,
                        forall|j: int| 0 <= j < i ==> #[trigger] ids@[j]@ == raw@[j]@,
                    decreases raw@.len() - i,
                {
                    ids.push(BundleId::from_bytes(raw[i]));
                    i = i + 1;
                }
                assert(ids_view(ids@) =~= raw@.map_values(|a: [u8; 16]| a@));
                Ok(InventorySummary { bundle_ids: ids })
            },
        }
    }
}

/// Decoding an encoded inventory gives the same identifiers back.
pub proof fn lemma_inventory_round_trip(ids: Seq<Seq<u8>>)
    requires
        forall|i: int| 0 <= i < ids.len() ==> #[trigger] ids[i].len() == 16,
        ids.len() <= u64::MAX,
    ensures
        spec_decode_inventory(enc_field_map(seq![(1u64, FieldValue::IdList(ids))])) == Ok::<
            Seq<Seq<u8>>,
            WireError,
        >(ids),
{
    lemma_single_entry(inventory_schema(), 1, FieldValue::IdList(ids));
}

// ---------------------------------------------------------------------------
// BUNDLE_OFFER
// ---------------------------------------------------------------------------

#[derive(Clone, Debug, PartialEq, Eq)]
pub struct BundleOffer {
    pub bundle_id: BundleId,
    pub bundle_type: BundleType,
    pub destination_id: UserId,
    pub size: u32,
    pub priority: Priority,
    pub hop_count: u16,
}

pub struct BundleOfferView {
    pub bundle_id: Seq<u8>,
    pub bundle_type: BundleType,
    pub destination_id: Seq<u8>,
    pub size: u32,
    pub priority: Priority,
    pub hop_count: u16,
}

impl View for BundleOffer {
    type V = BundleOfferView;

    open spec fn view(&self) -> BundleOfferView {
        BundleOfferView {
            bundle_id: self.bundle_id@,
            bundle_type: self.bundle_type,
            destination_id: self.destination_id@,
            size: self.size,
            priority: self.priority,
            hop_count: self.hop_count,
        }
    }
}

pub open spec fn offer_entries(o: BundleOfferView) -> Seq<(u64, FieldValue)> {
    seq![
        (1u64, FieldValue::Bytes(o.bundle_id)),
        (2u64, FieldValue::Uint(o.bundle_type.spec_code() as u64)),
        (3u64, FieldValue::Bytes(o.destination_id)),
        (4u64, FieldValue::Uint(o.size as u64)),
        (5u64, FieldValue::Uint(o.priority.spec_code() as u64)),
        (6u64, FieldValue::Uint(o.hop_count as u64)),
    ]
}

pub open spec fn offer_schema() -> Seq<Option<FieldKind>> {
    seq![
        None,
        Some(id16_kind()),
        Some(FieldKind::Uint),
        Some(id16_kind()),
        Some(FieldKind::Uint32),
        Some(FieldKind::Uint),
        Some(FieldKind::Uint16),
    ]
}

pub open spec fn spec_decode_offer(s: Seq<u8>) -> Result<BundleOfferView, WireError> {
    match spec_field_map(offer_schema(), false, s) {
        Err(e) => Err(e),
        Ok(t) => if t[1] is None {
            Err(WireError::MissingField(1))
        } else if t[2] is None {
            Err(WireError::MissingField(2))
        } else if bundle_type_of_code(uint_at(t, 2)) is None {
            Err(WireError::InvalidBundleType(uint_at(t, 2)))
        } else if t[3] is None {
            Err(WireError::MissingField(3))
        } else if t[4] is None {
            Err(WireError::MissingField(4))
        } else if t[5] is None {
            Err(WireError::MissingField(5))
        } else if priority_of_code(uint_at(t, 5)) is None {
            Err(WireError::InvalidPriority(uint_at(t, 5)))
        } else if t[6] is None {
            Err(WireError::MissingField(6))
        } else {
            Ok(
                BundleOfferView {
                    bundle_id: bytes_at(t, 1),
                    bundle_type: bundle_type_of_code(uint_at(t, 2))->0,
                    destination_id: bytes_at(t, 3),
                    size: uint_at(t, 4) as u32,
                    priority: priority_of_code(uint_at(t, 5))->0,
                    hop_count: uint_at(t, 6) as u16,
                },
            )
        },
    }
}

impl BundleOffer {
    pub fn encode(&self) -> (out: Vec<u8>)
        ensures
            out@ == enc_field_map(offer_entries(self@)),
    {
        let mut w = CborWriter::new();
        w.map(6);
        let ghost mut es: Seq<(u64, FieldValue)> = Seq::empty();
        assert(enc_entries(es) =~= Seq::<u8>::empty());
        put_bytes(&mut w, 1, self.bundle_id.as_bytes().as_slice());
        proof {
            lemma_enc_entries_push(es, 1, FieldValue::Bytes(self.bundle_id@));
            es = es.push((1, FieldValue::Bytes(self.bundle_id@)));
        }
        put_uint(&mut w, 2, self.bundle_type.code() as u64);
        proof {
            let v = FieldValue::Uint(self.bundle_type.spec_code() as u64);
            lemma_enc_entries_push(es, 2, v);
            es = es.push((2, v));
        }
        put_bytes(&mut w, 3, self.destination_id.as_bytes().as_slice());
        proof {
            lemma_enc_entries_push(es, 3, FieldValue::Bytes(self.destination_id@));
            es = es.push((3, FieldValue::Bytes(self.destination_id@)));
        }
        put_uint(&mut w, 4, self.size as u64);
        proof {
            lemma_enc_entries_push(es, 4, FieldValue::Uint(self.size as u64));
            es = es.push((4, FieldValue::Uint(self.size as u64)));
        }
        put_uint(&mut w, 5, self.priority.code() as u64);
        proof {
            let v = FieldValue::Uint(self.priority.spec_code() as u64);
            lemma_enc_entries_push(es, 5, v);
            es = es.push((5, v));
        }
        put_uint(&mut w, 6, self.hop_count as u64);
        proof {
            lemma_enc_entries_push(es, 6, FieldValue::Uint(self.hop_count as u64));
            es = es.push((6, FieldValue::Uint(self.hop_count as u64)));
            assert(es =~= offer_entries(self@));
        }
        assert(w@ =~= enc_field_map(offer_entries(self@)));
        w.into_inner()
    }

    pub fn decode(bytes: &[u8]) -> (res: Result<BundleOffer, WireError>)
        ensures
            match spec_decode_offer(bytes@) {
                Ok(v) => res matches Ok(o) && o@ == v,
                Err(e) => res == Err::<BundleOffer, WireError>(e),
            },
    {
        let id = FieldKind::Fixed { len: 16, err: WireError::InvalidIdentifier };
        let schema = vec![
            None,
            Some(id),
            Some(FieldKind::Uint),
            Some(id),
            Some(FieldKind::Uint32),
            Some(FieldKind::Uint),
            Some(FieldKind::Uint16),
        ];
        assert(schema@ =~= offer_schema());
        let mut t = read_field_map(bytes, schema.as_slice(), false)?;
        proof { lemma_field_map_fits(offer_schema(), false, bytes@); }
        let ghost tv = table_view(t@);
        assert(forall|k: int| 0 <= k < TABLE_LEN ==> #[trigger] tv[k] == opt_view(t@[k]));
        let bundle_id = match take_bytes(&mut t, 1) {
            None => return Err(WireError::MissingField(1)),
            Some(b) => BundleId::from_bytes(bytes_to_array16(b.as_slice())),
        };
        let bundle_type = match uint_slot(&t, 2) {
            None => return Err(WireError::MissingField(2)),
            Some(v) => bundle_type_from(v)?,
        };
        let destination_id = match take_bytes(&mut t, 3) {
            None => return Err(WireError::MissingField(3)),
            Some(b) => UserId::from_bytes(bytes_to_array16(b.as_slice())),
        };
        let size = match uint_slot(&t, 4) {
            None => return Err(WireError::MissingField(4)),
            Some(v) => v as u32,
        };
        let priority = match uint_slot(&t, 5) {
            None => return Err(WireError::MissingField(5)),
            Some(v) => priority_from(v)?,
        };
        let hop_count = match uint_slot(&t, 6) {
            None => return Err(WireError::MissingField(6)),
            Some(v) => v as u16,
        };
        Ok(BundleOffer { bundle_id, bundle_type, destination_id, size, priority, hop_count })
    }
}

/// Decoding an encoded offer gives it back.
pub proof fn lemma_offer_round_trip(o: BundleOfferView)
    requires
        o.bundle_id.len() == 16,
        o.destination_id.len() == 16,
    ensures
        spec_decode_offer(enc_field_map(offer_entries(o))) == Ok::<BundleOfferView, WireError>(o),
{
    let es = offer_entries(o);
    let schema = offer_schema();
    assert(entries_fit(schema, es)) by {
        reveal(entries_fit);
    }
    lemma_field_map_enc(schema, false, es);
    let t = table_after(empty_table(), es);
    assert forall|k: int| 1 <= k <= 6 implies #[trigger] t[k] == Some(es[k - 1].1) by {
        lemma_table_after(empty_table(), es, k);
        assert(es[k - 1].0 == k);
    }
    assert(bundle_type_of_code(o.bundle_type.spec_code() as u64) == Some(o.bundle_type));
    assert(priority_of_code(o.priority.spec_code() as u64) == Some(o.priority));
}

/// An offer whose bundle-type field carries a number that is no bundle
/// type's code is refused with `InvalidBundleType` of that number (the other
/// fields being those of a valid offer).
pub proof fn lemma_offer_invalid_type(o: BundleOfferView, code: u64)
    requires
        o.bundle_id.len() == 16,
        o.destination_id.len() == 16,
        bundle_type_of_code(code) is None,
    ensures
        spec_decode_offer(enc_field_map(offer_entries(o).update(1, (2u64, FieldValue::Uint(code)))))
            == Err::<BundleOfferView, WireError>(WireError::InvalidBundleType(code)),
{
    let es = offer_entries(o).update(1, (2u64, FieldValue::Uint(code)));
    let schema = offer_schema();
    assert(entries_fit(schema, es)) by {
        reveal(entries_fit);
    }
    lemma_field_map_enc(schema, false, es);
    let t = table_after(empty_table(), es);
    assert forall|k: int| 1 <= k <= 6 implies #[trigger] t[k] == Some(es[k - 1].1) by {
        lemma_table_after(empty_table(), es, k);
        assert(es[k - 1].0 == k);
    }
}

/// The same on the wire: in an encoded offer, byte 20 is the bundle type's
/// value (after the map head, the identifier entry and key 2); putting there
/// a small number that is no bundle type's code makes the offer refused with
/// `InvalidBundleType` of that number.
pub proof fn lemma_offer_type_byte(o: BundleOfferView, code: u8)
    requires
        o.bundle_id.len() == 16,
        o.destination_id.len() == 16,
        code < 24,
        bundle_type_of_code(code as u64) is None,
    ensures
        spec_decode_offer(enc_field_map(offer_entries(o)).update(20, code)) == Err::<
            BundleOfferView,
            WireError,
        >(WireError::InvalidBundleType(code as u64)),
{
    let es = offer_entries(o);
    let es2 = es.update(1, (2u64, FieldValue::Uint(code as u64)));
    let tail = es.subrange(2, 6);
    assert(es.drop_first().drop_first() =~= tail);
    assert(es2.drop_first().drop_first() =~= tail);
    reveal(enc_field_value);
    reveal_with_fuel(enc_entries, 3);
    assert(o.bundle_type.spec_code() < 24);
    let head = enc_map(6) + enc_entry(1, FieldValue::Bytes(o.bundle_id)) + enc_uint(2);
    assert(head.len() == 20);
    assert(enc_field_map(es) =~= head + enc_uint(o.bundle_type.spec_code() as u64) + enc_entries(tail));
    assert(enc_field_map(es2) =~= head + enc_uint(code as u64) + enc_entries(tail));
    assert(enc_field_map(es).update(20, code) =~= enc_field_map(es2));
    lemma_offer_invalid_type(o, code as u64);
}

// ---------------------------------------------------------------------------
// BUNDLE_REQUEST / BUNDLE_COMPLETE
// ---------------------------------------------------------------------------

#[derive(Clone, Debug, PartialEq, Eq)]
pub struct BundleIdPayload {
    pub bundle_id: BundleId,
}

pub open spec fn bundle_id_schema() -> Seq<Option<FieldKind>> {
    seq![None, Some(id16_kind())]
}

/// What `BundleIdPayload::decode` gives: the identifier's bytes.
pub open spec fn spec_decode_bundle_id(s: Seq<u8>) -> Result<Seq<u8>, WireError> {
    match spec_field_map(bundle_id_schema(), false, s) {
        Err(e) => Err(e),
        Ok(t) => if t[1] is None {
            Err(WireError::MissingField(1))
        } else {
            Ok(bytes_at(t, 1))
        },
    }
}

impl BundleIdPayload {
    pub fn encode(&self) -> (out: Vec<u8>)
        ensures
            out@ == enc_field_map(seq![(1u64, FieldValue::Bytes(self.bundle_id@))]),
    {
        encode_single_bytes(1, self.bundle_id.as_bytes().as_slice())
    }

    pub fn decode(bytes: &[u8]) -> (res: Result<BundleIdPayload, WireError>)
        ensures
            match spec_decode_bundle_id(bytes@) {
                Ok(v) => res matches Ok(p) && p.bundle_id@ == v,
                Err(e) => res == Err::<BundleIdPayload, WireError>(e),
            },
    {
        let schema = vec![None, Some(FieldKind::Fixed { len: 16, err: WireError::InvalidIdentifier })];
        assert(schema@ =~= bundle_id_schema());
        let mut t = read_field_map(bytes, schema.as_slice(), false)?;
        proof { lemma_field_map_fits(bundle_id_schema(), false, bytes@); }
        let ghost tv = table_view(t@);
        assert(tv[1] == opt_view(t@[1]));
        match take_bytes(&mut t, 1) {
            None => Err(WireError::MissingField(1)),
            Some(b) => Ok(BundleIdPayload { bundle_id: BundleId::from_bytes(bytes_to_array16(b.as_slice())) }),
        }
    }
}

/// Decoding an encoded bundle-id payload gives the identifier back.
pub proof fn lemma_bundle_id_round_trip(id: Seq<u8>)
    requires
        id.len() == 16,
    ensures
        spec_decode_bundle_id(enc_field_map(seq![(1u64, FieldValue::Bytes(id))])) == Ok::<
            Seq<u8>,
            WireError,
        >(id),
{
    lemma_single_entry(bundle_id_schema(), 1, FieldValue::Bytes(id));
}

// ---------------------------------------------------------------------------
// BUNDLE_DATA
// ---------------------------------------------------------------------------

#[derive(Clone, Debug, PartialEq, Eq)]
pub struct BundleData {
    pub bundle_id: BundleId,
    pub offset: u32,
    pub data: Vec<u8>,
}

pub struct BundleDataView {
    pub bundle_id: Seq<u8>,
    pub offset: u32,
    pub data: Seq<u8>,
}

impl View for BundleData {
    type V = BundleDataView;

    open spec fn view(&self) -> BundleDataView {
        BundleDataView { bundle_id: self.bundle_id@, offset: self.offset, data: self.data@ }
    }
}

pub open spec fn data_entries(d: BundleDataView) -> Seq<(u64, FieldValue)> {
    seq![
        (1u64, FieldValue::Bytes(d.bundle_id)),
        (2u64, FieldValue::Uint(d.offset as u64)),
        (3u64, FieldValue::Bytes(d.data)),
    ]
}

pub open spec fn data_schema() -> Seq<Option<FieldKind>> {
    seq![None, Some(id16_kind()), Some(FieldKind::Uint32), Some(FieldKind::Bytes)]
}

pub open spec fn spec_decode_data(s: Seq<u8>) -> Result<BundleDataView, WireError> {
    match spec_field_map(data_schema(), false, s) {
        Err(e) => Err(e),
        Ok(t) => if t[1] is None {
            Err(WireError::MissingField(1))
        } else if t[2] is None {
            Err(WireError::MissingField(2))
        } else if t[3] is None {
            Err(WireError::MissingField(3))
        } else {
            Ok(
                BundleDataView {
                    bundle_id: bytes_at(t, 1),
                    offset: uint_at(t, 2) as u32,
                    data: bytes_at(t, 3),
                },
            )
        },
    }
}

impl BundleData {
    pub fn encode(&self) -> (out: Vec<u8>)
        ensures
            out@ == enc_field_map(data_entries(self@)),
    {
        let mut w = CborWriter::new();
        w.map(3);
        let ghost mut es: Seq<(u64, FieldValue)> = Seq::empty();
        assert(enc_entries(es) =~= Seq::<u8>::empty());
        put_bytes(&mut w, 1, self.bundle_id.as_bytes().as_slice());
        proof {
            lemma_enc_entries_push(es, 1, FieldValue::Bytes(self.bundle_id@));
            es = es.push((1, FieldValue::Bytes(self.bundle_id@)));
        }
        put_uint(&mut w, 2, self.offset as u64);
        proof {
            lemma_enc_entries_push(es, 2, FieldValue::Uint(self.offset as u64));
            es = es.push((2, FieldValue::Uint(self.offset as u64)));
        }
        put_bytes(&mut w, 3, self.data.as_slice());
        proof {
            lemma_enc_entries_push(es, 3, FieldValue::Bytes(self.data@));
            es = es.push((3, FieldValue::Bytes(self.data@)));
            assert(es =~= data_entries(self@));
        }
        assert(w@ =~= enc_field_map(data_entries(self@)));
        w.into_inner()
    }

    pub fn decode(bytes: &[u8]) -> (res: Result<BundleData, WireError>)
        ensures
            match spec_decode_data(bytes@) {
                Ok(v) => res matches Ok(d) && d@ == v,
                Err(e) => res == Err::<BundleData, WireError>(e),
            },
    {
        let schema = vec![
            None,
            Some(FieldKind::Fixed { len: 16, err: WireError::InvalidIdentifier }),
            Some(FieldKind::Uint32),
            Some(FieldKind::Bytes),
        ];
        assert(schema@ =~= data_schema());
        let mut t = read_field_map(bytes, schema.as_slice(), false)?;
        proof { lemma_field_map_fits(data_schema(), false, bytes@); }
        let ghost tv = table_view(t@);
        assert(forall|k: int| 0 <= k < TABLE_LEN ==> #[trigger] tv[k] == opt_view(t@[k]));
        let bundle_id = match take_bytes(&mut t, 1) {
            None => return Err(WireError::MissingField(1)),
            Some(b) => BundleId::from_bytes(bytes_to_array16(b.as_slice())),
        };
        let offset = match uint_slot(&t, 2) {
            None => return Err(WireError::MissingField(2)),
            Some(v) => v as u32,
        };
        let data = match take_bytes(&mut t, 3) {
            None => return Err(WireError::MissingField(3)),
            Some(b) => b,
        };
        Ok(BundleData { bundle_id, offset, data })
    }
}

/// Decoding an encoded data chunk gives it back, for chunks within the
/// reader's string limit.
pub proof fn lemma_data_round_trip(d: BundleDataView)
    requires
        d.bundle_id.len() == 16,
        d.data.len() <= MAX_VALUE_BYTES,
    ensures
        spec_decode_data(enc_field_map(data_entries(d))) == Ok::<BundleDataView, WireError>(d),
{
    let es = data_entries(d);
    let schema = data_schema();
    assert(entries_fit(schema, es)) by {
        reveal(entries_fit);
    }
    lemma_field_map_enc(schema, false, es);
    let t = table_after(empty_table(), es);
    assert forall|k: int| 1 <= k <= 3 implies #[trigger] t[k] == Some(es[k - 1].1) by {
        lemma_table_after(empty_table(), es, k);
        assert(es[k - 1].0 == k);
    }
}

// ---------------------------------------------------------------------------
// ERROR
// ---------------------------------------------------------------------------

#[derive(Clone, Copy, Debug, PartialEq, Eq, Structural)]
pub struct ErrorPayload {
    pub code: u16,
}

pub open spec fn error_schema() -> Seq<Option<FieldKind>> {
    seq![None, Some(FieldKind::Uint16)]
}

/// What `ErrorPayload::decode` gives: the error code.
pub open spec fn spec_decode_error(s: Seq<u8>) -> Result<u16, WireError> {
    match spec_field_map(error_schema(), false, s) {
        Err(e) => Err(e),
        Ok(t) => if t[1] is None {
            Err(WireError::MissingField(1))
        } else {
            Ok(uint_at(t, 1) as u16)
        },
    }
}

impl ErrorPayload {
    pub fn encode(&self) -> (out: Vec<u8>)
        ensures
            out@ == enc_field_map(seq![(1u64, FieldValue::Uint(self.code as u64))]),
    {
        let mut w = CborWriter::new();
        w.map(1);
        put_uint(&mut w, 1, self.code as u64);
        proof {
            let v = FieldValue::Uint(self.code as u64);
            lemma_enc_entries_push(Seq::empty(), 1, v);
            assert(Seq::<(u64, FieldValue)>::empty().push((1u64, v)) =~= seq![(1u64, v)]);
            assert(enc_entries(Seq::<(u64, FieldValue)>::empty()) =~= Seq::<u8>::empty());
        }
        assert(w@ =~= enc_field_map(seq![(1u64, FieldValue::Uint(self.code as u64))]));
        w.into_inner()
    }

    pub fn decode(bytes: &[u8]) -> (res: Result<ErrorPayload, WireError>)
        ensures
            match spec_decode_error(bytes@) {
                Ok(v) => res == Ok::<ErrorPayload, WireError>(ErrorPayload { code: v }),
                Err(e) => res == Err::<ErrorPayload, WireError>(e),
            },
    {
        let schema = vec![None, Some(FieldKind::Uint16)];
        assert(schema@ =~= error_schema());
        let t = read_field_map(bytes, schema.as_slice(), false)?;
        proof { lemma_field_map_fits(error_schema(), false, bytes@); }
        let ghost tv = table_view(t@);
        assert(tv[1] == opt_view(t@[1]));
        match uint_slot(&t, 1) {
            None => Err(WireError::MissingField(1)),
            Some(v) => Ok(ErrorPayload { code: v as u16 }),
        }
    }
}

/// Decoding an encoded error payload gives the code back.
pub proof fn lemma_error_round_trip(code: u16)
    ensures
        spec_decode_error(enc_field_map(seq![(1u64, FieldValue::Uint(code as u64))])) == Ok::<
            u16,
            WireError,
        >(code),
{
    lemma_single_entry(error_schema(), 1, FieldValue::Uint(code as u64));
}

} // verus!
