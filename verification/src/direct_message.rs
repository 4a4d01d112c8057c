//! The plaintext of a direct message, sealed to the recipient before it
//! travels in a bundle.
use vstd::prelude::*;
use vstd::utf8::encode_utf8;
use crate::error::WireError;
use crate::types::{ConversationId, MessageId, UserId, group_id_lemmas};
use crate::cbor::{CborWriter, MAX_VALUE_BYTES};
use crate::control::opt_view;
use crate::fields::{
    FieldKind, FieldValue, TABLE_LEN, table_view, uint_at, int_at, bytes_at, text_at,
    enc_field_map, enc_entries, entries_fit, table_after, empty_table, spec_field_map,
    read_field_map, put_uint, put_int, put_bytes, put_text, uint_slot, int_slot, take_bytes,
    take_text, lemma_field_map_enc, lemma_field_map_fits, lemma_table_after, lemma_enc_entries_push,
    bytes_to_array16,
};

verus! {

broadcast use group_id_lemmas;

pub const DIRECT_MESSAGE_VERSION: u16 = 1;
pub const KEY_VERSION: u8 = 1;
pub const KEY_MESSAGE_ID: u8 = 2;
pub const KEY_CONVERSATION_ID: u8 = 3;
pub const KEY_SENDER_ID: u8 = 4;
pub const KEY_RECIPIENT_ID: u8 = 5;
pub const KEY_SEQUENCE: u8 = 6;
pub const KEY_SENT_AT: u8 = 7;
pub const KEY_CONTENT_TYPE: u8 = 8;
pub const KEY_CONTENT: u8 = 9;

#[derive(Clone, Debug, PartialEq, Eq)]
pub struct DirectMessagePayload {
    pub version: u16,
    pub message_id: MessageId,
    pub conversation_id: ConversationId,
    pub sender_id: UserId,
    pub recipient_id: UserId,
    pub sequence: u64,
    pub sent_at_ms: i64,
    pub content_type: String,
    pub content: Vec<u8>,
}

pub struct DirectMessageView {
    pub version: u16,
    pub message_id: Seq<u8>,
    pub conversation_id: Seq<u8>,
    pub sender_id: Seq<u8>,
    pub recipient_id: Seq<u8>,
    pub sequence: u64,
    pub sent_at_ms: i64,
    pub content_type: Seq<char>,
    pub content: Seq<u8>,
}

impl View for DirectMessagePayload {
    type V = DirectMessageView;

    open spec fn view(&self) -> DirectMessageView {
        DirectMessageView {
            version: self.version,
            message_id: self.message_id@,
            conversation_id: self.conversation_id@,
            sender_id: self.sender_id@,
            recipient_id: self.recipient_id@,
            sequence: self.sequence,
            sent_at_ms: self.sent_at_ms,
            content_type: self.content_type@,
            content: self.content@,
        }
    }
}

pub open spec fn direct_message_entries(m: DirectMessageView) -> Seq<(u64, FieldValue)> {
    seq![
        (KEY_VERSION as u64, FieldValue::Uint(m.version as u64)),
        (KEY_MESSAGE_ID as u64, FieldValue::Bytes(m.message_id)),
        (KEY_CONVERSATION_ID as u64, FieldValue::Bytes(m.conversation_id)),
        (KEY_SENDER_ID as u64, FieldValue::Bytes(m.sender_id)),
        (KEY_RECIPIENT_ID as u64, FieldValue::Bytes(m.recipient_id)),
        (KEY_SEQUENCE as u64, FieldValue::Uint(m.sequence)),
        (KEY_SENT_AT as u64, FieldValue::Int(m.sent_at_ms)),
        (KEY_CONTENT_TYPE as u64, FieldValue::Text(m.content_type)),
        (KEY_CONTENT as u64, FieldValue::Bytes(m.content)),
    ]
}

pub open spec fn spec_encode_direct_message(m: DirectMessageView) -> Seq<u8> {
    enc_field_map(direct_message_entries(m))
}

pub open spec fn direct_message_schema() -> Seq<Option<FieldKind>> {
    let id = FieldKind::Fixed { len: 16, err: WireError::InvalidIdentifier };
    seq![
        None,
        Some(FieldKind::Uint),
        Some(id),
        Some(id),
        Some(id),
        Some(id),
        Some(FieldKind::Uint),
        Some(FieldKind::Int),
        Some(FieldKind::Text),
        Some(FieldKind::Bytes),
    ]
}

/// What `decode_cbor` gives: the field map (a repeated field is
/// `DuplicateField`), then each required field in key order, the version
/// checked to fit a `u16`.
pub open spec fn spec_decode_direct_message(s: Seq<u8>) -> Result<DirectMessageView, WireError> {
    match spec_field_map(direct_message_schema(), true, s) {
        Err(e) => Err(e),
        Ok(t) => if t[1] is None {
            Err(WireError::MissingField(KEY_VERSION))
        } else if uint_at(t, 1) > u16::MAX {
            Err(WireError::IntegerOutOfRange)
        } else if t[2] is None {
            Err(WireError::MissingField(KEY_MESSAGE_ID))
        } else if t[3] is None {
            Err(WireError::MissingField(KEY_CONVERSATION_ID))
        } else if t[4] is None {
            Err(WireError::MissingField(KEY_SENDER_ID))
        } else if t[5] is None {
            Err(WireError::MissingField(KEY_RECIPIENT_ID))
        } else if t[6] is None {
            Err(WireError::MissingField(KEY_SEQUENCE))
        } else if t[7] is None {
            Err(WireError::MissingField(KEY_SENT_AT))
        } else if t[8] is None {
            Err(WireError::MissingField(KEY_CONTENT_TYPE))
        } else if t[9] is None {
            Err(WireError::MissingField(KEY_CONTENT))
        } else {
            Ok(
                DirectMessageView {
                    version: uint_at(t, 1) as u16,
                    message_id: bytes_at(t, 2),
                    conversation_id: bytes_at(t, 3),
                    sender_id: bytes_at(t, 4),
                    recipient_id: bytes_at(t, 5),
                    sequence: uint_at(t, 6),
                    sent_at_ms: int_at(t, 7),
                    content_type: text_at(t, 8),
                    content: bytes_at(t, 9),
                },
            )
        },
    }
}

impl DirectMessagePayload {
    pub fn encode_cbor(&self) -> (out: Vec<u8>)
        ensures
            out@ == spec_encode_direct_message(self@),
    {
        let mut w = CborWriter::new();
        w.map(9);
        let ghost mut es: Seq<(u64, FieldValue)> = Seq::empty();
        assert(enc_entries(es) =~= Seq::<u8>::empty());
        put_uint(&mut w, KEY_VERSION as u64, self.version as u64);
        proof {
            let v = FieldValue::Uint(self.version as u64);
            lemma_enc_entries_push(es, KEY_VERSION as u64, v);
            es = es.push((KEY_VERSION as u64, v));
        }
        put_bytes(&mut w, KEY_MESSAGE_ID as u64, self.message_id.as_bytes().as_slice());
        proof {
            let v = FieldValue::Bytes(self.message_id@);
            lemma_enc_entries_push(es, KEY_MESSAGE_ID as u64, v);
            es = es.push((KEY_MESSAGE_ID as u64, v));
        }
        put_bytes(&mut w, KEY_CONVERSATION_ID as u64, self.conversation_id.as_bytes().as_slice());
        proof {
            let v = FieldValue::Bytes(self.conversation_id@);
            lemma_enc_entries_push(es, KEY_CONVERSATION_ID as u64, v);
            es = es.push((KEY_CONVERSATION_ID as u64, v));
        }
        put_bytes(&mut w, KEY_SENDER_ID as u64, self.sender_id.as_bytes().as_slice());
        proof {
            let v = FieldValue::Bytes(self.sender_id@);
            lemma_enc_entries_push(es, KEY_SENDER_ID as u64, v);
            es = es.push((KEY_SENDER_ID as u64, v));
        }
        put_bytes(&mut w, KEY_RECIPIENT_ID as u64, self.recipient_id.as_bytes().as_slice());
        proof {
            let v = FieldValue::Bytes(self.recipient_id@);
            lemma_enc_entries_push(es, KEY_RECIPIENT_ID as u64, v);
            es = es.push((KEY_RECIPIENT_ID as u64, v));
        }
        put_uint(&mut w, KEY_SEQUENCE as u64, self.sequence);
        proof {
            let v = FieldValue::Uint(self.sequence);
            lemma_enc_entries_push(es, KEY_SEQUENCE as u64, v);
            es = es.push((KEY_SEQUENCE as u64, v));
        }
        put_int(&mut w, KEY_SENT_AT as u64, self.sent_at_ms);
        proof {
            let v = FieldValue::Int(self.sent_at_ms);
            lemma_enc_entries_push(es, KEY_SENT_AT as u64, v);
            es = es.push((KEY_SENT_AT as u64, v));
        }
        put_text(&mut w, KEY_CONTENT_TYPE as u64, self.content_type.as_str());
        proof {
            let v = FieldValue::Text(self.content_type@);
            lemma_enc_entries_push(es, KEY_CONTENT_TYPE as u64, v);
            es = es.push((KEY_CONTENT_TYPE as u64, v));
        }
        put_bytes(&mut w, KEY_CONTENT as u64, self.content.as_slice());
        proof {
            let v = FieldValue::Bytes(self.content@);
            lemma_enc_entries_push(es, KEY_CONTENT as u64, v);
            es = es.push((KEY_CONTENT as u64, v));
            assert(es =~= direct_message_entries(self@));
        }
        assert(w@ =~= spec_encode_direct_message(self@));
        w.into_inner()
    }

    pub fn decode_cbor(bytes: &[u8]) -> (res: Result<DirectMessagePayload, WireError>)
        ensures
            match spec_decode_direct_message(bytes@) {
                Ok(v) => res matches Ok(m) && m@ == v,
                Err(e) => res == Err::<DirectMessagePayload, WireError>(e),
            },
    {
        let id = FieldKind::Fixed { len: 16, err: WireError::InvalidIdentifier };
        let schema = vec![
            None,
            Some(FieldKind::Uint),
            Some(id),
            Some(id),
            Some(id),
            Some(id),
            Some(FieldKind::Uint),
            Some(FieldKind::Int),
            Some(FieldKind::Text),
            Some(FieldKind::Bytes),
        ];
        assert(schema@ =~= direct_message_schema());
        let mut t = read_field_map(bytes, schema.as_slice(), true)?;
        proof { lemma_field_map_fits(direct_message_schema(), true, bytes@); }
        let ghost tv = table_view(t@);
        assert(forall|k: int| 0 <= k < TABLE_LEN ==> #[trigger] tv[k] == opt_view(t@[k]));
        let version = match uint_slot(&t, 1) {
            None => return Err(WireError::MissingField(KEY_VERSION)),
            Some(v) => v,
        };
        if version > u16::MAX as u64 {
            return Err(WireError::IntegerOutOfRange);
        }
        let message_id = match take_bytes(&mut t, 2) {
            None => return Err(WireError::MissingField(KEY_MESSAGE_ID)),
            Some(b) => MessageId::from_bytes(bytes_to_array16(b.as_slice())),
        };
        let conversation_id = match take_bytes(&mut t, 3) {
            None => return Err(WireError::MissingField(KEY_CONVERSATION_ID)),
            Some(b) => ConversationId::from_bytes(bytes_to_array16(b.as_slice())),
        };
        let sender_id = match take_bytes(&mut t, 4) {
            None => return Err(WireError::MissingField(KEY_SENDER_ID)),
            Some(b) => UserId::from_bytes(bytes_to_array16(b.as_slice())),
        };
        let recipient_id = match take_bytes(&mut t, 5) {
            None => return Err(WireError::MissingField(KEY_RECIPIENT_ID)),
            Some(b) => UserId::from_bytes(bytes_to_array16(b.as_slice())),
        };
        let sequence = match uint_slot(&t, 6) {
            None => return Err(WireError::MissingField(KEY_SEQUENCE)),
            Some(v) => v,
        };
        let sent_at_ms = match int_slot(&t, 7) {
            None => return Err(WireError::MissingField(KEY_SENT_AT)),
            Some(v) => v,
        };
        let content_type = match take_text(&mut t, 8) {
            None => return Err(WireError::MissingField(KEY_CONTENT_TYPE)),
            Some(v) => v,
        };
        let content = match take_bytes(&mut t, 9) {
            None => return Err(WireError::MissingField(KEY_CONTENT)),
            Some(v) => v,
        };
        Ok(DirectMessagePayload {
            version: version as u16,
            message_id,
            conversation_id,
            sender_id,
            recipient_id,
            sequence,
            sent_at_ms,
            content_type,
            content,
        })
    }
}

/// Decoding an encoded direct message gives it back, for content type and
/// content within the reader's string limit.
pub proof fn lemma_direct_message_round_trip(m: DirectMessageView)
    requires
        m.message_id.len() == 16,
        m.conversation_id.len() == 16,
        m.sender_id.len() == 16,
        m.recipient_id.len() == 16,
        encode_utf8(m.content_type).len() <= MAX_VALUE_BYTES,
        m.content.len() <= MAX_VALUE_BYTES,
    ensures
        spec_decode_direct_message(spec_encode_direct_message(m)) == Ok::<DirectMessageView, WireError>(m),
{
    let es = direct_message_entries(m);
    let schema = direct_message_schema();
    assert(entries_fit(schema, es)) by {
        reveal(entries_fit);
    }
    lemma_field_map_enc(schema, true, es);
    let t = table_after(empty_table(), es);
    assert forall|k: int| 1 <= k <= 9 implies #[trigger] t[k] == Some(es[k - 1].1) by {
        lemma_table_after(empty_table(), es, k);
        assert(es[k - 1].0 == k);
    }
}

/// What the written message holds: a map of nine entries with distinct keys,
/// whose value under each key constant is the matching field. In particular
/// the sender's bytes stand under `KEY_SENDER_ID` and the recipient's under
/// `KEY_RECIPIENT_ID`.
pub proof fn lemma_direct_message_fields(m: DirectMessageView)
    ensures
        exists|es: Seq<(u64, FieldValue)>|
            {
                let t = table_after(empty_table(), es);
                &&& #[trigger] enc_field_map(es) == spec_encode_direct_message(m)
                &&& es.len() == 9
                &&& forall|i: int, j: int|
                    0 <= i < j < es.len() ==> (#[trigger] es[i]).0 != (#[trigger] es[j]).0
                &&& t[KEY_VERSION as int] == Some(FieldValue::Uint(m.version as u64))
                &&& t[KEY_MESSAGE_ID as int] == Some(FieldValue::Bytes(m.message_id))
                &&& t[KEY_CONVERSATION_ID as int] == Some(FieldValue::Bytes(m.conversation_id))
                &&& t[KEY_SENDER_ID as int] == Some(FieldValue::Bytes(m.sender_id))
                &&& t[KEY_RECIPIENT_ID as int] == Some(FieldValue::Bytes(m.recipient_id))
                &&& t[KEY_SEQUENCE as int] == Some(FieldValue::Uint(m.sequence))
                &&& t[KEY_SENT_AT as int] == Some(FieldValue::Int(m.sent_at_ms))
                &&& t[KEY_CONTENT_TYPE as int] == Some(FieldValue::Text(m.content_type))
                &&& t[KEY_CONTENT as int] == Some(FieldValue::Bytes(m.content))
            },
{
    let es = direct_message_entries(m);
    let t = table_after(empty_table(), es);
    assert forall|k: int| 1 <= k <= 9 implies #[trigger] t[k] == Some(es[k - 1].1) by {
        lemma_table_after(empty_table(), es, k);
        assert(es[k - 1].0 == k);
    }
    assert(t[KEY_SENDER_ID as int] == Some(es[3].1));
    assert(t[KEY_RECIPIENT_ID as int] == Some(es[4].1));
    assert(enc_field_map(es) == spec_encode_direct_message(m));
}

} // verus!
