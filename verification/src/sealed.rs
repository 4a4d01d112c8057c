//! A message sealed to its recipient: the sender's ephemeral X25519 public
//! key, the AEAD nonce and the ciphertext.
use vstd::prelude::*;
use crate::error::WireError;
use crate::cbor::{CborWriter, MAX_VALUE_BYTES};
use crate::control::opt_view;
use crate::fields::{
    FieldKind, FieldValue, TABLE_LEN, table_view, bytes_at, enc_field_map, enc_entries,
    entries_fit, table_after, empty_table, spec_field_map, read_field_map, put_bytes, take_bytes,
    lemma_field_map_enc, lemma_field_map_fits, lemma_table_after, lemma_enc_entries_push,
    bytes_to_array32, bytes_to_array12,
};

verus! {

pub const KEY_EPHEMERAL_PUBLIC: u8 = 1;
pub const KEY_NONCE: u8 = 2;
pub const KEY_CIPHERTEXT: u8 = 3;

#[derive(Clone, Debug, PartialEq, Eq)]
pub struct SealedPayload {
    pub ephemeral_public: [u8; 32],
    pub nonce: [u8; 12],
    pub ciphertext: Vec<u8>,
}

pub struct SealedView {
    pub ephemeral_public: Seq<u8>,
    pub nonce: Seq<u8>,
    pub ciphertext: Seq<u8>,
}

impl View for SealedPayload {
    type V = SealedView;

    open spec fn view(&self) -> SealedView {
        SealedView {
            ephemeral_public: self.ephemeral_public@,
            nonce: self.nonce@,
            ciphertext: self.ciphertext@,
        }
    }
}

pub open spec fn sealed_entries(p: SealedView) -> Seq<(u64, FieldValue)> {
    seq![
        (KEY_EPHEMERAL_PUBLIC as u64, FieldValue::Bytes(p.ephemeral_public)),
        (KEY_NONCE as u64, FieldValue::Bytes(p.nonce)),
        (KEY_CIPHERTEXT as u64, FieldValue::Bytes(p.ciphertext)),
    ]
}

pub open spec fn spec_encode_sealed(p: SealedView) -> Seq<u8> {
    enc_field_map(sealed_entries(p))
}

pub open spec fn sealed_schema() -> Seq<Option<FieldKind>> {
    seq![
        None,
        Some(FieldKind::Fixed { len: 32, err: WireError::InvalidSealedPayload }),
        Some(FieldKind::Fixed { len: 12, err: WireError::InvalidSealedPayload }),
        Some(FieldKind::Bytes),
    ]
}

/// What `decode_cbor` gives: a key or nonce of the wrong length is
/// `InvalidSealedPayload`, a repeated field `DuplicateField`.
pub open spec fn spec_decode_sealed(s: Seq<u8>) -> Result<SealedView, WireError> {
    match spec_field_map(sealed_schema(), true, s) {
        Err(e) => Err(e),
        Ok(t) => if t[1] is None {
            Err(WireError::MissingField(KEY_EPHEMERAL_PUBLIC))
        } else if t[2] is None {
            Err(WireError::MissingField(KEY_NONCE))
        } else if t[3] is None {
            Err(WireError::MissingField(KEY_CIPHERTEXT))
        } else {
            Ok(
                SealedView {
                    ephemeral_public: bytes_at(t, 1),
                    nonce: bytes_at(t, 2),
                    ciphertext: bytes_at(t, 3),
                },
            )
        },
    }
}

impl SealedPayload {
    pub fn encode_cbor(&self) -> (out: Vec<u8>)
        ensures
            out@ == spec_encode_sealed(self@),
    {
        let mut w = CborWriter::new();
        w.map(3);
        let ghost mut es: Seq<(u64, FieldValue)> = Seq::empty();
        assert(enc_entries(es) =~= Seq::<u8>::empty());
        put_bytes(&mut w, KEY_EPHEMERAL_PUBLIC as u64, self.ephemeral_public.as_slice());
        proof {
            let v = FieldValue::Bytes(self.ephemeral_public@);
            lemma_enc_entries_push(es, KEY_EPHEMERAL_PUBLIC as u64, v);
            es = es.push((KEY_EPHEMERAL_PUBLIC as u64, v));
        }
        put_bytes(&mut w, KEY_NONCE as u64, self.nonce.as_slice());
        proof {
            let v = FieldValue::Bytes(self.nonce@);
            lemma_enc_entries_push(es, KEY_NONCE as u64, v);
            es = es.push((KEY_NONCE as u64, v));
        }
        put_bytes(&mut w, KEY_CIPHERTEXT as u64, self.ciphertext.as_slice());
        proof {
            let v = FieldValue::Bytes(self.ciphertext@);
            lemma_enc_entries_push(es, KEY_CIPHERTEXT as u64, v);
            es = es.push((KEY_CIPHERTEXT as u64, v));
            assert(es =~= sealed_entries(self@));
        }
        assert(w@ =~= spec_encode_sealed(self@));
        w.into_inner()
    }

    pub fn decode_cbor(bytes: &[u8]) -> (res: Result<SealedPayload, WireError>)
        ensures
            match spec_decode_sealed(bytes@) {
                Ok(v) => res matches Ok(p) && p@ == v,
                Err(e) => res == Err::<SealedPayload, WireError>(e),
            },
    {
        let schema = vec![
            None,
            Some(FieldKind::Fixed { len: 32, err: WireError::InvalidSealedPayload }),
            Some(FieldKind::Fixed { len: 12, err: WireError::InvalidSealedPayload }),
            Some(FieldKind::Bytes),
        ];
        assert(schema@ =~= sealed_schema());
        let mut t = read_field_map(bytes, schema.as_slice(), true)?;
        proof { lemma_field_map_fits(sealed_schema(), true, bytes@); }
        let ghost tv = table_view(t@);
        assert(forall|k: int| 0 <= k < TABLE_LEN ==> #[trigger] tv[k] == opt_view(t@[k]));
        let ephemeral_public = match take_bytes(&mut t, 1) {
            None => return Err(WireError::MissingField(KEY_EPHEMERAL_PUBLIC)),
            Some(b) => bytes_to_array32(b.as_slice()),
        };
        let nonce = match take_bytes(&mut t, 2) {
            None => return Err(WireError::MissingField(KEY_NONCE)),
            Some(b) => bytes_to_array12(b.as_slice()),
        };
        let ciphertext = match take_bytes(&mut t, 3) {
            None => return Err(WireError::MissingField(KEY_CIPHERTEXT)),
            Some(b) => b,
        };
        Ok(SealedPayload { ephemeral_public, nonce, ciphertext })
    }
}

/// Decoding an encoded sealed payload gives it back, for ciphertexts within
/// the reader's string limit.
pub proof fn lemma_sealed_round_trip(p: SealedView)
    requires
        p.ephemeral_public.len() == 32,
        p.nonce.len() == 12,
        p.ciphertext.len() <= MAX_VALUE_BYTES,
    ensures
        spec_decode_sealed(spec_encode_sealed(p)) == Ok::<SealedView, WireError>(p),
{
    let es = sealed_entries(p);
    let schema = sealed_schema();
    assert(entries_fit(schema, es)) by {
        reveal(entries_fit);
    }
    lemma_field_map_enc(schema, true, es);
    let t = table_after(empty_table(), es);
    assert forall|k: int| 1 <= k <= 3 implies #[trigger] t[k] == Some(es[k - 1].1) by {
        lemma_table_after(empty_table(), es, k);
        assert(es[k - 1].0 == k);
    }
}

} // verus!
