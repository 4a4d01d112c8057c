//! Reading the field maps that every Mesh Protocol payload is made of: a
//! CBOR map from small unsigned keys to values, where each payload's schema
//! says which keys it knows and how each value is read. Unknown keys are
//! skipped. Every payload writes its fields in ascending key order.
use vstd::prelude::*;
use vstd::utf8::*;
use crate::error::WireError;
use crate::cbor::{
    CborReader, CborWriter, enc_array, enc_bytes, enc_int, enc_map, enc_text, enc_uint, lemma_rest_skip,
    lemma_skip_bounds, lemma_read_counts, lemma_read_uint, lemma_read_int, lemma_read_bytes,
    lemma_read_text, lemma_read_array, lemma_read_map, MAX_VALUE_BYTES, MAX_MAP_ENTRIES, spec_read_array, spec_read_bytes, spec_read_i64, spec_read_map,
    spec_read_text, spec_read_u64, spec_skip,
};

verus! {

/// One more than the largest key any payload uses.
pub const TABLE_LEN: usize = 22;

/// How a known field's value is read.
#[derive(Clone, Copy, Debug, PartialEq, Eq, Structural)]
pub enum FieldKind {
    /// Any unsigned integer.
    Uint,
    /// An unsigned integer that must fit in a `u8` (else `IntegerOutOfRange`).
    Uint8,
    /// An unsigned integer that must fit in a `u16`.
    Uint16,
    /// An unsigned integer that must fit in a `u32`.
    Uint32,
    /// A signed integer.
    Int,
    /// A byte string.
    Bytes,
    /// A UTF-8 string.
    Text,
    /// A byte string of exactly `len` bytes, or the error `err`.
    Fixed { len: u64, err: WireError },
    /// An array of 16-byte identifiers (each of another length is `InvalidIdentifier`).
    IdList,
}

/// A field value as read.
pub enum FieldValue {
    Uint(u64),
    Int(i64),
    Bytes(Seq<u8>),
    Text(Seq<char>),
    IdList(Seq<Seq<u8>>),
}

/// A field value as held by executable code.
pub enum ExecField {
    Uint(u64),
    Int(i64),
    Bytes(Vec<u8>),
    Text(String),
    IdList(Vec<[u8; 16]>),
}

impl View for ExecField {
    type V = FieldValue;

    open spec fn view(&self) -> FieldValue {
        match self {
            ExecField::Uint(v) => FieldValue::Uint(*v),
            ExecField::Int(v) => FieldValue::Int(*v),
            ExecField::Bytes(b) => FieldValue::Bytes(b@),
            ExecField::Text(t) => FieldValue::Text(t@),
            ExecField::IdList(ids) => FieldValue::IdList(ids@.map_values(|a: [u8; 16]| a@)),
        }
    }
}

pub open spec fn opt_field_view(o: Option<ExecField>) -> Option<FieldValue> {
    match o {
        Some(f) => Some(f@),
        None => None,
    }
}

pub open spec fn table_view(t: Seq<Option<ExecField>>) -> Seq<Option<FieldValue>> {
    t.map_values(|o: Option<ExecField>| opt_field_view(o))
}

pub open spec fn empty_table() -> Seq<Option<FieldValue>> {
    Seq::new(TABLE_LEN as nat, |i: int| None)
}

// ---------------------------------------------------------------------------
// Spec
// ---------------------------------------------------------------------------

/// A list of `count` identifiers.
pub open spec fn spec_read_id_list(s: Seq<u8>, count: nat) -> Result<(Seq<Seq<u8>>, int), WireError>
    decreases count,
{
    if count == 0 {
        Ok((Seq::empty(), 0))
    } else {
        match spec_read_bytes(s) {
            Err(e) => Err(e),
            Ok((b, n)) => if b.len() != 16 {
                Err(WireError::InvalidIdentifier)
            } else {
                match spec_read_id_list(s.skip(n), (count - 1) as nat) {
                    Err(e) => Err(e),
                    Ok((ids, m)) => Ok((seq![b] + ids, n + m)),
                }
            },
        }
    }
}

/// The value of one field of the given kind.
pub open spec fn spec_read_field(kind: FieldKind, s: Seq<u8>) -> Result<(FieldValue, int), WireError> {
    match kind {
        FieldKind::Uint => match spec_read_u64(s) {
            Err(e) => Err(e),
            Ok((v, n)) => Ok((FieldValue::Uint(v), n)),
        },
        FieldKind::Uint8 => match spec_read_u64(s) {
            Err(e) => Err(e),
            Ok((v, n)) => if v > u8::MAX {
                Err(WireError::IntegerOutOfRange)
            } else {
                Ok((FieldValue::Uint(v), n))
            },
        },
        FieldKind::Uint16 => match spec_read_u64(s) {
            Err(e) => Err(e),
            Ok((v, n)) => if v > u16::MAX {
                Err(WireError::IntegerOutOfRange)
            } else {
                Ok((FieldValue::Uint(v), n))
            },
        },
        FieldKind::Uint32 => match spec_read_u64(s) {
            Err(e) => Err(e),
            Ok((v, n)) => if v > u32::MAX {
                Err(WireError::IntegerOutOfRange)
            } else {
                Ok((FieldValue::Uint(v), n))
            },
        },
        FieldKind::Int => match spec_read_i64(s) {
            Err(e) => Err(e),
            Ok((v, n)) => Ok((FieldValue::Int(v), n)),
        },
        FieldKind::Bytes => match spec_read_bytes(s) {
            Err(e) => Err(e),
            Ok((b, n)) => Ok((FieldValue::Bytes(b), n)),
        },
        FieldKind::Text => match spec_read_text(s) {
            Err(e) => Err(e),
            Ok((t, n)) => Ok((FieldValue::Text(t), n)),
        },
        FieldKind::Fixed { len, err } => match spec_read_bytes(s) {
            Err(e) => Err(e),
            Ok((b, n)) => if b.len() != len {
                Err(err)
            } else {
                Ok((FieldValue::Bytes(b), n))
            },
        },
        FieldKind::IdList => match spec_read_array(s) {
            Err(e) => Err(e),
            Ok((count, n)) => match spec_read_id_list(s.skip(n), count as nat) {
                Err(e) => Err(e),
                Ok((ids, m)) => Ok((FieldValue::IdList(ids), n + m)),
            },
        },
    }
}

/// One map entry: a key, then the value of a known field (stored; with
/// `once`, a second value for the same key is `DuplicateField`) or of an
/// unknown one (skipped).
pub open spec fn spec_field_step(
    schema: Seq<Option<FieldKind>>,
    once: bool,
    s: Seq<u8>,
    acc: Seq<Option<FieldValue>>,
) -> Result<(Seq<Option<FieldValue>>, int), WireError> {
    match spec_read_u64(s) {
        Err(e) => Err(e),
        Ok((key, n)) => if key < schema.len() && schema[key as int] is Some {
            match spec_read_field(schema[key as int]->0, s.skip(n)) {
                Err(e) => Err(e),
                Ok((v, m)) => if once && acc[key as int] is Some {
                    Err(WireError::DuplicateField(key as u8))
                } else {
                    Ok((acc.update(key as int, Some(v)), n + m))
                },
            }
        } else {
            match spec_skip(s.skip(n), 0) {
                Err(e) => Err(e),
                Ok(m) => Ok((acc, n + m)),
            }
        },
    }
}

/// `count` map entries in a row.
pub open spec fn spec_fields(
    schema: Seq<Option<FieldKind>>,
    once: bool,
    s: Seq<u8>,
    count: nat,
    acc: Seq<Option<FieldValue>>,
) -> Result<(Seq<Option<FieldValue>>, int), WireError>
    decreases count,
{
    if count == 0 {
        Ok((acc, 0))
    } else {
        match spec_field_step(schema, once, s, acc) {
            Err(e) => Err(e),
            Ok((a, k)) => match spec_fields(schema, once, s.skip(k), (count - 1) as nat, a) {
                Err(e) => Err(e),
                Ok((b, j)) => Ok((b, k + j)),
            },
        }
    }
}

/// A whole field map: the map head, its entries, and nothing after them.
pub open spec fn spec_field_map(schema: Seq<Option<FieldKind>>, once: bool, s: Seq<u8>) -> Result<
    Seq<Option<FieldValue>>,
    WireError,
> {
    match spec_read_map(s) {
        Err(e) => Err(e),
        Ok((count, n)) => match spec_fields(schema, once, s.skip(n), count as nat, empty_table()) {
            Err(e) => Err(e),
            Ok((t, m)) => if n + m != s.len() {
                Err(WireError::TrailingCbor)
            } else {
                Ok(t)
            },
        },
    }
}

/// A value agrees with the kind its key was read as.
pub open spec fn value_has_kind(kind: FieldKind, v: FieldValue) -> bool {
    match kind {
        FieldKind::Uint => v is Uint,
        FieldKind::Uint8 => v matches FieldValue::Uint(x) && x <= u8::MAX,
        FieldKind::Uint16 => v matches FieldValue::Uint(x) && x <= u16::MAX,
        FieldKind::Uint32 => v matches FieldValue::Uint(x) && x <= u32::MAX,
        FieldKind::Int => v is Int,
        FieldKind::Bytes => v is Bytes,
        FieldKind::Text => v is Text,
        FieldKind::Fixed { len, err } => v matches FieldValue::Bytes(b) && b.len() == len,
        FieldKind::IdList => v matches FieldValue::IdList(ids) && forall|i: int|
            0 <= i < ids.len() ==> #[trigger] ids[i].len() == 16,
    }
}

/// Every stored value agrees with the schema.
pub open spec fn table_fits(schema: Seq<Option<FieldKind>>, t: Seq<Option<FieldValue>>) -> bool {
    &&& t.len() == TABLE_LEN
    &&& schema.len() <= TABLE_LEN
    &&& forall|k: int|
        0 <= k < TABLE_LEN ==> (#[trigger] t[k] is Some ==> k < schema.len() && schema[k] is Some
            && value_has_kind(schema[k]->0, t[k]->0))
}

pub open spec fn uint_at(t: Seq<Option<FieldValue>>, k: int) -> u64 {
    t[k]->0->Uint_0
}

pub open spec fn int_at(t: Seq<Option<FieldValue>>, k: int) -> i64 {
    t[k]->0->Int_0
}

pub open spec fn bytes_at(t: Seq<Option<FieldValue>>, k: int) -> Seq<u8> {
    t[k]->0->Bytes_0
}

pub open spec fn text_at(t: Seq<Option<FieldValue>>, k: int) -> Seq<char> {
    t[k]->0->Text_0
}

pub open spec fn ids_at(t: Seq<Option<FieldValue>>, k: int) -> Seq<Seq<u8>> {
    t[k]->0->IdList_0
}


// ---------------------------------------------------------------------------
// Executable reading
// ---------------------------------------------------------------------------

pub fn bytes_to_array16(b: &[u8]) -> (a: [u8; 16])
    requires
        b@.len() == 16,
    ensures
        a@ == b@,
{
    let mut a = [0u8; 16];
    let mut i: usize = 0;
    while i < 16
        invariant
            i <= 16,
            b@.len() == 16,
            forall|j: int| 0 <= j < i ==> a@[j] == b@[j],
        decreases 16 - i,
    {
        a[i] = b[i];
        i = i + 1;
    }
    assert(a@ =~= b@);
    a
}

pub fn bytes_to_array32(b: &[u8]) -> (a: [u8; 32])
    requires
        b@.len() == 32,
    ensures
        a@ == b@,
{
    let mut a = [0u8; 32];
    let mut i: usize = 0;
    while i < 32
        invariant
            i <= 32,
            b@.len() == 32,
            forall|j: int| 0 <= j < i ==> a@[j] == b@[j],
        decreases 32 - i,
    {
        a[i] = b[i];
        i = i + 1;
    }
    assert(a@ =~= b@);
    a
}

pub fn bytes_to_array12(b: &[u8]) -> (a: [u8; 12])
    requires
        b@.len() == 12,
    ensures
        a@ == b@,
{
    let mut a = [0u8; 12];
    let mut i: usize = 0;
    while i < 12
        invariant
            i <= 12,
            b@.len() == 12,
            forall|j: int| 0 <= j < i ==> a@[j] == b@[j],
        decreases 12 - i,
    {
        a[i] = b[i];
        i = i + 1;
    }
    assert(a@ =~= b@);
    a
}

fn read_id_list(r: &mut CborReader, count: u64) -> (res: Result<Vec<[u8; 16]>, WireError>)
    ensures
        final(r).data() == old(r).data(),
        match spec_read_id_list(old(r).rest(), count as nat) {
            Ok((ids, n)) => res matches Ok(v) && v@.map_values(|a: [u8; 16]| a@) == ids
                && final(r).pos() == old(r).pos() + n,
            Err(e) => res == Err::<Vec<[u8; 16]>, WireError>(e),
        },
{
    proof { use_type_invariant(&*r); }
    let ghost s0 = r.rest();
    let ghost p0 = r.pos();
    let mut ids: Vec<[u8; 16]> = Vec::new();
    let mut i: u64 = 0;
    while i < count
        invariant
            i <= count,
            r.data() == old(r).data(),
            s0 == old(r).rest(),
            p0 == old(r).pos(),
            0 <= p0 <= r.pos() <= r.data().len(),
            spec_read_id_list(s0, count as nat) == (match spec_read_id_list(
                r.rest(),
                (count - i) as nat,
            ) {
                Err(e) => Err(e),
                Ok((rest_ids, m)) => Ok(
                    (ids@.map_values(|a: [u8; 16]| a@) + rest_ids, r.pos() - p0 + m),
                ),
            }),
        decreases count - i,
    {
        let ghost pb = r.pos();
        let ghost before = r.rest();
        proof { lemma_read_counts(before); }
        let b = r.bytes()?;
        proof {
            use_type_invariant(&*r);
            lemma_rest_skip(r.data(), pb, r.pos() - pb);
        }
        if b.len() != 16 {
            return Err(WireError::InvalidIdentifier);
        }
        let ghost old_ids = ids@;
        ids.push(bytes_to_array16(b));
        proof {
            assert(ids@.map_values(|a: [u8; 16]| a@) =~= old_ids.map_values(|a: [u8; 16]| a@)
                + seq![b@]);
            let tail = spec_read_id_list(r.rest(), (count - i - 1) as nat);
            if let Ok((rest_ids, m)) = tail {
                assert(old_ids.map_values(|a: [u8; 16]| a@) + (seq![b@] + rest_ids) =~= ids@.map_values(
                    |a: [u8; 16]| a@,
                ) + rest_ids);
            }
        }
        i = i + 1;
    }
    proof {
        assert(ids@.map_values(|a: [u8; 16]| a@) + Seq::<Seq<u8>>::empty() =~= ids@.map_values(
            |a: [u8; 16]| a@,
        ));
    }
    Ok(ids)
}

/// Reads one value of the given kind.
pub fn read_field(r: &mut CborReader, kind: FieldKind) -> (res: Result<ExecField, WireError>)
    ensures
        final(r).data() == old(r).data(),
        match spec_read_field(kind, old(r).rest()) {
            Ok((v, n)) => res matches Ok(f) && f@ == v && final(r).pos() == old(r).pos() + n,
            Err(e) => res == Err::<ExecField, WireError>(e),
        },
{
    match kind {
        FieldKind::Uint => Ok(ExecField::Uint(r.u64()?)),
        FieldKind::Uint8 => {
            let v = r.u64()?;
            if v > u8::MAX as u64 {
                return Err(WireError::IntegerOutOfRange);
            }
            Ok(ExecField::Uint(v))
        },
        FieldKind::Uint16 => {
            let v = r.u64()?;
            if v > u16::MAX as u64 {
                return Err(WireError::IntegerOutOfRange);
            }
            Ok(ExecField::Uint(v))
        },
        FieldKind::Uint32 => {
            let v = r.u64()?;
            if v > u32::MAX as u64 {
                return Err(WireError::IntegerOutOfRange);
            }
            Ok(ExecField::Uint(v))
        },
        FieldKind::Int => Ok(ExecField::Int(r.i64()?)),
        FieldKind::Bytes => {
            let b = r.bytes()?;
            Ok(ExecField::Bytes(vstd::slice::slice_to_vec(b)))
        },
        FieldKind::Text => {
            let t = r.text()?;
            Ok(ExecField::Text(t.to_owned()))
        },
        FieldKind::Fixed { len, err } => {
            let b = r.bytes()?;
            if b.len() as u64 != len {
                return Err(err);
            }
            Ok(ExecField::Bytes(vstd::slice::slice_to_vec(b)))
        },
        FieldKind::IdList => {
            proof {
                use_type_invariant(&*r);
                lemma_read_counts(r.rest());
            }
            let ghost p0 = r.pos();
            let count = r.array()?;
            proof {
                use_type_invariant(&*r);
                lemma_rest_skip(r.data(), p0, r.pos() - p0);
            }
            let ids = read_id_list(r, count)?;
            Ok(ExecField::IdList(ids))
        },
    }
}

/// Reads one map entry into the table.
fn read_field_entry(
    r: &mut CborReader,
    schema: &[Option<FieldKind>],
    once: bool,
    table: &mut Vec<Option<ExecField>>,
) -> (res: Result<(), WireError>)
    requires
        schema@.len() <= TABLE_LEN,
        old(table)@.len() == TABLE_LEN,
    ensures
        final(r).data() == old(r).data(),
        match spec_field_step(schema@, once, old(r).rest(), table_view(old(table)@)) {
            Ok((t, n)) => res is Ok && final(table)@.len() == TABLE_LEN && table_view(final(table)@)
                == t && final(r).pos() == old(r).pos() + n && n >= 1,
            Err(e) => res == Err::<(), WireError>(e),
        },
{
    proof {
        use_type_invariant(&*r);
        reveal(spec_field_step);
    }
    let ghost pb = r.pos();
    let ghost acc = table_view(table@);
    proof { lemma_read_counts(r.rest()); }
    let key = r.u64()?;
    proof {
        use_type_invariant(&*r);
        lemma_rest_skip(r.data(), pb, r.pos() - pb);
    }
    let ghost pk = r.pos();
    let known: Option<FieldKind> = if key < schema.len() as u64 {
        schema[key as usize]
    } else {
        None
    };
    match known {
        Some(kind) => {
            proof { lemma_field_counts(kind, r.rest()); }
            let v = read_field(r, kind)?;
            if once && table[key as usize].is_some() {
                return Err(WireError::DuplicateField(key as u8));
            }
            table.set(key as usize, Some(v));
            assert(table_view(table@) =~= acc.update(key as int, Some(v@)));
        },
        None => {
            let ghost before = r.rest();
            proof { lemma_skip_bounds(before, 0); }
            r.skip_value()?;
        },
    }
    Ok(())
}

/// Reads `count` map entries against `schema`.
pub fn read_fields(r: &mut CborReader, schema: &[Option<FieldKind>], once: bool, count: u64) -> (res:
    Result<Vec<Option<ExecField>>, WireError>)
    requires
        schema@.len() <= TABLE_LEN,
    ensures
        final(r).data() == old(r).data(),
        match spec_fields(schema@, once, old(r).rest(), count as nat, empty_table()) {
            Ok((t, n)) => res matches Ok(tab) && tab@.len() == TABLE_LEN && table_view(tab@) == t
                && final(r).pos() == old(r).pos() + n,
            Err(e) => res == Err::<Vec<Option<ExecField>>, WireError>(e),
        },
{
    proof { use_type_invariant(&*r); }
    let ghost s0 = r.rest();
    let ghost p0 = r.pos();
    let mut table: Vec<Option<ExecField>> = Vec::new();
    let mut j: usize = 0;
    while j < TABLE_LEN
        invariant
            j <= TABLE_LEN,
            table@.len() == j,
            forall|k: int| 0 <= k < j ==> #[trigger] table@[k] is None,
        decreases TABLE_LEN - j,
    {
        table.push(None);
        j = j + 1;
    }
    assert(table_view(table@) =~= empty_table());
    let mut i: u64 = 0;
    while i < count
        invariant
            i <= count,
            schema@.len() <= TABLE_LEN,
            table@.len() == TABLE_LEN,
            r.data() == old(r).data(),
            s0 == old(r).rest(),
            0 <= p0 <= r.pos() <= r.data().len(),
            spec_fields(schema@, once, s0, count as nat, empty_table()) == (match spec_fields(
                schema@,
                once,
                r.rest(),
                (count - i) as nat,
                table_view(table@),
            ) {
                Err(e) => Err(e),
                Ok((t, m)) => Ok((t, r.pos() - p0 + m)),
            }),
        decreases count - i,
    {
        let ghost pb = r.pos();
        read_field_entry(r, schema, once, &mut table)?;
        proof {
            use_type_invariant(&*r);
            lemma_rest_skip(r.data(), pb, r.pos() - pb);
        }
        i = i + 1;
    }
    Ok(table)
}

/// Reads a whole field map from `bytes`.
pub fn read_field_map(bytes: &[u8], schema: &[Option<FieldKind>], once: bool) -> (res: Result<
    Vec<Option<ExecField>>,
    WireError,
>)
    requires
        schema@.len() <= TABLE_LEN,
    ensures
        match spec_field_map(schema@, once, bytes@) {
            Ok(t) => res matches Ok(tab) && tab@.len() == TABLE_LEN && table_view(tab@) == t,
            Err(e) => res == Err::<Vec<Option<ExecField>>, WireError>(e),
        },
{
    let mut r = CborReader::new(bytes);
    let count = r.map()?;
    proof {
        use_type_invariant(&r);
        lemma_rest_skip(bytes@, 0, r.pos());
    }
    let ghost p1 = r.pos();
    let table = read_fields(&mut r, schema, once, count)?;
    proof { use_type_invariant(&r); }
    r.finish()?;
    Ok(table)
}

/// Empties slot `key` of the table and hands out what it held.
pub fn take_slot(t: &mut Vec<Option<ExecField>>, key: usize) -> (o: Option<ExecField>)
    requires
        key < old(t)@.len(),
    ensures
        o == old(t)@[key as int],
        final(t)@ == old(t)@.update(key as int, None),
{
    let mut tmp: Option<ExecField> = None;
    t.set_and_swap(key, &mut tmp);
    tmp
}


/// Reading an identifier list takes no more bytes than there are.
pub proof fn lemma_id_list_counts(s: Seq<u8>, count: nat)
    ensures
        spec_read_id_list(s, count) matches Ok((ids, n)) ==> 0 <= n <= s.len(),
    decreases count,
{
    if count > 0 {
        lemma_read_counts(s);
        if let Ok((b, n)) = spec_read_bytes(s) {
            lemma_id_list_counts(s.skip(n), (count - 1) as nat);
        }
    }
}

/// Reading a field takes at least one byte and no more than there are.
pub proof fn lemma_field_counts(kind: FieldKind, s: Seq<u8>)
    ensures
        spec_read_field(kind, s) matches Ok((v, n)) ==> 1 <= n <= s.len(),
{
    lemma_read_counts(s);
    if let Ok((count, n)) = spec_read_array(s) {
        lemma_id_list_counts(s.skip(n), count as nat);
    }
}


// ---------------------------------------------------------------------------
// What is written reads back
// ---------------------------------------------------------------------------

pub open spec fn enc_id_list(ids: Seq<Seq<u8>>) -> Seq<u8>
    decreases ids.len(),
{
    if ids.len() == 0 {
        Seq::empty()
    } else {
        enc_bytes(ids[0]) + enc_id_list(ids.drop_first())
    }
}

/// How a value is written.
#[verifier::opaque]
pub open spec fn enc_field_value(v: FieldValue) -> Seq<u8> {
    match v {
        FieldValue::Uint(x) => enc_uint(x),
        FieldValue::Int(x) => enc_int(x),
        FieldValue::Bytes(b) => enc_bytes(b),
        FieldValue::Text(t) => enc_text(t),
        FieldValue::IdList(ids) => enc_array(ids.len() as u64) + enc_id_list(ids),
    }
}

/// One map entry: its key, then its value.
pub open spec fn enc_entry(key: u64, v: FieldValue) -> Seq<u8> {
    enc_uint(key) + enc_field_value(v)
}

pub open spec fn enc_entries(es: Seq<(u64, FieldValue)>) -> Seq<u8>
    decreases es.len(),
{
    if es.len() == 0 {
        Seq::empty()
    } else {
        enc_entry(es[0].0, es[0].1) + enc_entries(es.drop_first())
    }
}

/// A whole field map with the given entries, in the given order.
pub open spec fn enc_field_map(es: Seq<(u64, FieldValue)>) -> Seq<u8> {
    enc_map(es.len() as u64) + enc_entries(es)
}

/// The table after storing the entries in order.
pub open spec fn table_after(acc: Seq<Option<FieldValue>>, es: Seq<(u64, FieldValue)>) -> Seq<
    Option<FieldValue>,
>
    decreases es.len(),
{
    if es.len() == 0 {
        acc
    } else {
        table_after(acc.update(es[0].0 as int, Some(es[0].1)), es.drop_first())
    }
}

/// A value of the kind, small enough for the reader's limits.
pub open spec fn value_readable(kind: FieldKind, v: FieldValue) -> bool {
    &&& value_has_kind(kind, v)
    &&& v matches FieldValue::Bytes(b) ==> b.len() <= MAX_VALUE_BYTES
    &&& v matches FieldValue::Text(t) ==> encode_utf8(t).len() <= MAX_VALUE_BYTES
    &&& v matches FieldValue::IdList(ids) ==> ids.len() <= u64::MAX
}

/// The entries have distinct keys, all known to the schema, with readable values.
#[verifier::opaque]
pub open spec fn entries_fit(schema: Seq<Option<FieldKind>>, es: Seq<(u64, FieldValue)>) -> bool {
    &&& forall|i: int|
        0 <= i < es.len() ==> (#[trigger] es[i]).0 < schema.len() && schema[es[i].0 as int] is Some
            && value_readable(schema[es[i].0 as int]->0, es[i].1)
    &&& forall|i: int, j: int| 0 <= i < j < es.len() ==> (#[trigger] es[i]).0 != (#[trigger] es[j]).0
}

pub proof fn lemma_read_id_list_enc(ids: Seq<Seq<u8>>, rest: Seq<u8>)
    requires
        forall|i: int| 0 <= i < ids.len() ==> #[trigger] ids[i].len() == 16,
    ensures
        spec_read_id_list(enc_id_list(ids) + rest, ids.len()) == Ok::<(Seq<Seq<u8>>, int), WireError>(
            (ids, enc_id_list(ids).len() as int),
        ),
    decreases ids.len(),
{
    if ids.len() > 0 {
        let b = ids[0];
        let tail = ids.drop_first();
        assert(enc_id_list(ids) + rest =~= enc_bytes(b) + (enc_id_list(tail) + rest));
        lemma_read_bytes(b, enc_id_list(tail) + rest);
        let n = enc_bytes(b).len() as int;
        assert((enc_bytes(b) + (enc_id_list(tail) + rest)).skip(n) =~= enc_id_list(tail) + rest);
        assert forall|i: int| 0 <= i < tail.len() implies #[trigger] tail[i].len() == 16 by {
            assert(tail[i] == ids[i + 1]);
        }
        lemma_read_id_list_enc(tail, rest);
        assert(seq![b] + tail =~= ids);
    } else {
        assert(ids =~= Seq::<Seq<u8>>::empty());
    }
}

pub proof fn lemma_read_field_enc(kind: FieldKind, v: FieldValue, rest: Seq<u8>)
    requires
        value_readable(kind, v),
    ensures
        spec_read_field(kind, enc_field_value(v) + rest) == Ok::<(FieldValue, int), WireError>(
            (v, enc_field_value(v).len() as int),
        ),
{
    reveal(enc_field_value);
    match v {
        FieldValue::Uint(x) => lemma_read_uint(x, rest),
        FieldValue::Int(x) => lemma_read_int(x, rest),
        FieldValue::Bytes(b) => lemma_read_bytes(b, rest),
        FieldValue::Text(t) => lemma_read_text(t, rest),
        FieldValue::IdList(ids) => {
            let a = enc_array(ids.len() as u64);
            assert(enc_field_value(v) + rest =~= a + (enc_id_list(ids) + rest));
            lemma_read_array(ids.len() as u64, enc_id_list(ids) + rest);
            assert((a + (enc_id_list(ids) + rest)).skip(a.len() as int) =~= enc_id_list(ids)
                + rest);
            lemma_read_id_list_enc(ids, rest);
        },
    }
}

pub proof fn lemma_field_step_enc(
    schema: Seq<Option<FieldKind>>,
    once: bool,
    key: u64,
    v: FieldValue,
    rest: Seq<u8>,
    acc: Seq<Option<FieldValue>>,
)
    requires
        key < schema.len(),
        schema[key as int] is Some,
        value_readable(schema[key as int]->0, v),
        once ==> acc[key as int] is None,
    ensures
        spec_field_step(schema, once, enc_entry(key, v) + rest, acc) == Ok::<
            (Seq<Option<FieldValue>>, int),
            WireError,
        >((acc.update(key as int, Some(v)), enc_entry(key, v).len() as int)),
{
    reveal(spec_field_step);
    let k = enc_uint(key);
    assert(enc_entry(key, v) + rest =~= k + (enc_field_value(v) + rest));
    lemma_read_uint(key, enc_field_value(v) + rest);
    assert((k + (enc_field_value(v) + rest)).skip(k.len() as int) =~= enc_field_value(v) + rest);
    lemma_read_field_enc(schema[key as int]->0, v, rest);
}

proof fn lemma_entries_tail_fit(schema: Seq<Option<FieldKind>>, es: Seq<(u64, FieldValue)>)
    requires
        entries_fit(schema, es),
        es.len() > 0,
    ensures
        entries_fit(schema, es.drop_first()),
        forall|i: int| 0 <= i < es.drop_first().len() ==> (#[trigger] es.drop_first()[i]).0 != es[0].0,
        es[0].0 < schema.len(),
        forall|i: int| 0 <= i < es.len() ==> (#[trigger] es[i]).0 < schema.len(),
        schema[es[0].0 as int] is Some,
        value_readable(schema[es[0].0 as int]->0, es[0].1),
{
    reveal(entries_fit);
    let tail = es.drop_first();
    assert forall|i: int| 0 <= i < tail.len() implies (#[trigger] tail[i]).0 < schema.len()
        && schema[tail[i].0 as int] is Some && value_readable(
        schema[tail[i].0 as int]->0,
        tail[i].1,
    ) by {
        assert(tail[i] == es[i + 1]);
    }
    assert forall|i: int, j: int| 0 <= i < j < tail.len() implies (#[trigger] tail[i]).0 != (
    #[trigger] tail[j]).0 by {
        assert(tail[i] == es[i + 1]);
        assert(tail[j] == es[j + 1]);
    }
    assert forall|i: int| 0 <= i < tail.len() implies (#[trigger] tail[i]).0 != es[0].0 by {
        assert(tail[i] == es[i + 1]);
    }
}

#[verifier::rlimit(60)]
pub proof fn lemma_fields_enc(
    schema: Seq<Option<FieldKind>>,
    once: bool,
    es: Seq<(u64, FieldValue)>,
    rest: Seq<u8>,
    acc: Seq<Option<FieldValue>>,
)
    requires
        entries_fit(schema, es),
        schema.len() <= acc.len(),
        once ==> forall|i: int| 0 <= i < es.len() ==> acc[(#[trigger] es[i]).0 as int] is None,
    ensures
        spec_fields(schema, once, enc_entries(es) + rest, es.len(), acc) == Ok::<
            (Seq<Option<FieldValue>>, int),
            WireError,
        >((table_after(acc, es), enc_entries(es).len() as int)),
    decreases es.len(),
{
    if es.len() > 0 {
        let key = es[0].0;
        let v = es[0].1;
        let tail = es.drop_first();
        let e = enc_entry(key, v);
        let s = enc_entries(es) + rest;
        let s2 = enc_entries(tail) + rest;
        assert(s =~= e + s2);
        lemma_entries_tail_fit(schema, es);
        if once {
            assert(acc[es[0].0 as int] is None);
        }
        lemma_field_step_enc(schema, once, key, v, s2, acc);
        assert(s.skip(e.len() as int) =~= s2);
        let acc2 = acc.update(key as int, Some(v));
        if once {
            assert forall|i: int| 0 <= i < tail.len() implies acc2[(#[trigger] tail[i]).0 as int] is None by {
                assert(tail[i] == es[i + 1]);
                assert(es[i + 1].0 < schema.len());
            }
        }
        lemma_fields_enc(schema, once, tail, rest, acc2);
        assert(spec_field_step(schema, once, s, acc) == Ok::<(Seq<Option<FieldValue>>, int), WireError>((acc2, e.len() as int)));
        assert(table_after(acc, es) == table_after(acc2, tail));
    }
}

/// A field map written with distinct known keys reads back as the table of
/// its entries.
pub proof fn lemma_field_map_enc(schema: Seq<Option<FieldKind>>, once: bool, es: Seq<(u64, FieldValue)>)
    requires
        entries_fit(schema, es),
        schema.len() <= TABLE_LEN,
        es.len() <= MAX_MAP_ENTRIES,
    ensures
        spec_field_map(schema, once, enc_field_map(es)) == Ok::<Seq<Option<FieldValue>>, WireError>(
            table_after(empty_table(), es),
        ),
{
    reveal(entries_fit);
    let m = enc_map(es.len() as u64);
    lemma_read_map(es.len() as u64, enc_entries(es));
    assert(m + enc_entries(es) =~= m + (enc_entries(es) + Seq::empty()));
    assert((m + enc_entries(es)).skip(m.len() as int) =~= enc_entries(es) + Seq::empty());
    lemma_fields_enc(schema, once, es, Seq::empty(), empty_table());
}

/// Bytes after a written field map are refused as trailing data.
pub proof fn lemma_field_map_trailing(
    schema: Seq<Option<FieldKind>>,
    once: bool,
    es: Seq<(u64, FieldValue)>,
    rest: Seq<u8>,
)
    requires
        entries_fit(schema, es),
        schema.len() <= TABLE_LEN,
        es.len() <= MAX_MAP_ENTRIES,
        rest.len() > 0,
    ensures
        spec_field_map(schema, once, enc_field_map(es) + rest) == Err::<Seq<Option<FieldValue>>, WireError>(
            WireError::TrailingCbor,
        ),
{
    reveal(entries_fit);
    let m = enc_map(es.len() as u64);
    let s = enc_field_map(es) + rest;
    lemma_read_map(es.len() as u64, enc_entries(es) + rest);
    assert(s =~= m + (enc_entries(es) + rest));
    assert(s.skip(m.len() as int) =~= enc_entries(es) + rest);
    lemma_fields_enc(schema, once, es, rest, empty_table());
}


/// After storing entries with distinct keys, each entry's key holds its
/// value and every other slot is as before.
pub proof fn lemma_table_after(acc: Seq<Option<FieldValue>>, es: Seq<(u64, FieldValue)>, k: int)
    requires
        forall|i: int, j: int| 0 <= i < j < es.len() ==> (#[trigger] es[i]).0 != (#[trigger] es[j]).0,
        forall|i: int| 0 <= i < es.len() ==> (#[trigger] es[i]).0 < acc.len(),
        0 <= k < acc.len(),
    ensures
        table_after(acc, es).len() == acc.len(),
        (forall|i: int| 0 <= i < es.len() ==> (#[trigger] es[i]).0 != k) ==> table_after(acc, es)[k]
            == acc[k],
        forall|i: int| 0 <= i < es.len() && (#[trigger] es[i]).0 == k ==> table_after(acc, es)[k]
            == Some(es[i].1),
    decreases es.len(),
{
    if es.len() > 0 {
        let tail = es.drop_first();
        let acc2 = acc.update(es[0].0 as int, Some(es[0].1));
        assert forall|i: int, j: int| 0 <= i < j < tail.len() implies (#[trigger] tail[i]).0 != (
        #[trigger] tail[j]).0 by {
            assert(tail[i] == es[i + 1]);
            assert(tail[j] == es[j + 1]);
        }
        assert forall|i: int| 0 <= i < tail.len() implies (#[trigger] tail[i]).0 < acc2.len() by {
            assert(tail[i] == es[i + 1]);
        }
        lemma_table_after(acc2, tail, k);
        assert forall|i: int| 0 <= i < es.len() && (#[trigger] es[i]).0 == k implies table_after(
            acc,
            es,
        )[k] == Some(es[i].1) by {
            if i > 0 {
                assert(tail[i - 1] == es[i]);
                assert(es[0].0 != es[i].0);
            } else {
                assert forall|j: int| 0 <= j < tail.len() implies (#[trigger] tail[j]).0 != k by {
                    assert(tail[j] == es[j + 1]);
                }
            }
        }
        if forall|i: int| 0 <= i < es.len() ==> (#[trigger] es[i]).0 != k {
            assert(es[0].0 != k);
            assert forall|j: int| 0 <= j < tail.len() implies (#[trigger] tail[j]).0 != k by {
                assert(tail[j] == es[j + 1]);
            }
        }
    }
}

pub proof fn lemma_enc_entries_push(es: Seq<(u64, FieldValue)>, key: u64, v: FieldValue)
    ensures
        enc_entries(es.push((key, v))) == enc_entries(es) + enc_entry(key, v),
    decreases es.len(),
{
    if es.len() == 0 {
        assert(es.push((key, v)).drop_first() =~= Seq::<(u64, FieldValue)>::empty());
        assert(enc_entries(es.push((key, v)).drop_first()) == Seq::<u8>::empty());
        assert(enc_entries(es.push((key, v))) =~= enc_entry(key, v));
    } else {
        assert(es.push((key, v)).drop_first() =~= es.drop_first().push((key, v)));
        lemma_enc_entries_push(es.drop_first(), key, v);
        assert(enc_entries(es.push((key, v))) =~= enc_entries(es) + enc_entry(key, v));
    }
}

/// A read value always agrees with the kind it was read as.
pub proof fn lemma_read_field_kind(kind: FieldKind, s: Seq<u8>)
    ensures
        spec_read_field(kind, s) matches Ok((v, n)) ==> value_has_kind(kind, v),
{
    if let FieldKind::IdList = kind {
        if let Ok((count, n)) = spec_read_array(s) {
            lemma_id_list_lengths(s.skip(n), count as nat);
        }
    }
}

proof fn lemma_id_list_lengths(s: Seq<u8>, count: nat)
    ensures
        spec_read_id_list(s, count) matches Ok((ids, n)) ==> forall|i: int|
            0 <= i < ids.len() ==> #[trigger] ids[i].len() == 16,
    decreases count,
{
    if count > 0 {
        if let Ok((b, n)) = spec_read_bytes(s) {
            lemma_id_list_lengths(s.skip(n), (count - 1) as nat);
            if let Ok((ids, m)) = spec_read_id_list(s.skip(n), (count - 1) as nat) {
              if b.len() == 16 {
                let all = seq![b] + ids;
                assert forall|i: int| 0 <= i < all.len() implies #[trigger] all[i].len() == 16 by {
                    if i > 0 {
                        assert(all[i] == ids[i - 1]);
                    }
                }
              }
            }
        }
    }
}

/// Every table a field map reads agrees with the schema.
pub proof fn lemma_fields_fit(
    schema: Seq<Option<FieldKind>>,
    once: bool,
    s: Seq<u8>,
    count: nat,
    acc: Seq<Option<FieldValue>>,
)
    requires
        table_fits(schema, acc),
    ensures
        spec_fields(schema, once, s, count, acc) matches Ok((t, n)) ==> table_fits(schema, t),
    decreases count,
{
    if count > 0 {
        reveal(spec_field_step);
        if let Ok((key, n)) = spec_read_u64(s) {
            if key < schema.len() && schema[key as int] is Some {
                lemma_read_field_kind(schema[key as int]->0, s.skip(n));
            }
        }
        if let Ok((a, k)) = spec_field_step(schema, once, s, acc) {
            assert(table_fits(schema, a));
            lemma_fields_fit(schema, once, s.skip(k), (count - 1) as nat, a);
        }
    }
}

pub proof fn lemma_field_map_fits(schema: Seq<Option<FieldKind>>, once: bool, s: Seq<u8>)
    requires
        schema.len() <= TABLE_LEN,
    ensures
        spec_field_map(schema, once, s) matches Ok(t) ==> table_fits(schema, t),
{
    if let Ok((count, n)) = spec_read_map(s) {
        lemma_fields_fit(schema, once, s.skip(n), count as nat, empty_table());
    }
}

// ---------------------------------------------------------------------------
// Executable writing of entries
// ---------------------------------------------------------------------------

pub fn put_uint(w: &mut CborWriter, key: u64, v: u64)
    ensures
        final(w)@ == old(w)@ + enc_entry(key, FieldValue::Uint(v)),
{
    w.u64(key);
    w.u64(v);
    proof { reveal(enc_field_value); }
    assert(w@ =~= old(w)@ + enc_entry(key, FieldValue::Uint(v)));
}

pub fn put_int(w: &mut CborWriter, key: u64, v: i64)
    ensures
        final(w)@ == old(w)@ + enc_entry(key, FieldValue::Int(v)),
{
    w.u64(key);
    w.i64(v);
    proof { reveal(enc_field_value); }
    assert(w@ =~= old(w)@ + enc_entry(key, FieldValue::Int(v)));
}

pub fn put_bytes(w: &mut CborWriter, key: u64, v: &[u8])
    ensures
        final(w)@ == old(w)@ + enc_entry(key, FieldValue::Bytes(v@)),
{
    w.u64(key);
    w.bytes(v);
    proof { reveal(enc_field_value); }
    assert(w@ =~= old(w)@ + enc_entry(key, FieldValue::Bytes(v@)));
}

pub fn put_text(w: &mut CborWriter, key: u64, v: &str)
    ensures
        final(w)@ == old(w)@ + enc_entry(key, FieldValue::Text(v@)),
{
    w.u64(key);
    w.text(v);
    proof { reveal(enc_field_value); }
    assert(w@ =~= old(w)@ + enc_entry(key, FieldValue::Text(v@)));
}

/// A key, then an array of identifiers.
pub fn put_id_list(w: &mut CborWriter, key: u64, ids: &[[u8; 16]])
    ensures
        final(w)@ == old(w)@ + enc_entry(key, FieldValue::IdList(ids@.map_values(|a: [u8; 16]| a@))),
{
    let ghost all = ids@.map_values(|a: [u8; 16]| a@);
    w.u64(key);
    w.array(ids.len() as u64);
    let ghost start = w@;
    let mut i: usize = 0;
    while i < ids.len()
        invariant
            i <= ids@.len(),
            all == ids@.map_values(|a: [u8; 16]| a@),
            w@ == start + enc_id_list(all.take(i as int)),
        decreases ids@.len() - i,
    {
        let ghost before = w@;
        let id: [u8; 16] = ids[i];
        w.bytes(id.as_slice());
        proof {
            lemma_enc_id_list_push(all.take(i as int), all[i as int]);
            assert(all.take(i as int).push(all[i as int]) =~= all.take(i + 1));
        }
        i = i + 1;
    }
    proof {
        assert(all.take(i as int) =~= all);
        reveal(enc_field_value);
    }
    assert(w@ =~= old(w)@ + enc_entry(key, FieldValue::IdList(all)));
}

proof fn lemma_enc_id_list_push(ids: Seq<Seq<u8>>, b: Seq<u8>)
    ensures
        enc_id_list(ids.push(b)) == enc_id_list(ids) + enc_bytes(b),
    decreases ids.len(),
{
    if ids.len() == 0 {
        assert(ids.push(b).drop_first() =~= Seq::<Seq<u8>>::empty());
        assert(enc_id_list(ids.push(b).drop_first()) == Seq::<u8>::empty());
        assert(enc_id_list(ids.push(b)) =~= enc_bytes(b));
    } else {
        assert(ids.push(b).drop_first() =~= ids.drop_first().push(b));
        lemma_enc_id_list_push(ids.drop_first(), b);
        assert(enc_id_list(ids.push(b)) =~= enc_id_list(ids) + enc_bytes(b));
    }
}

// ---------------------------------------------------------------------------
// Executable access to a read table
// ---------------------------------------------------------------------------

/// The unsigned integer in slot `key`, if any.
pub fn uint_slot(t: &Vec<Option<ExecField>>, key: usize) -> (o: Option<u64>)
    requires
        key < t@.len(),
        t@[key as int] is None || t@[key as int] matches Some(ExecField::Uint(_)),
    ensures
        o is None <==> t@[key as int] is None,
        o matches Some(v) ==> t@[key as int] == Some(ExecField::Uint(v)),
{
    match &t[key] {
        Some(ExecField::Uint(v)) => Some(*v),
        _ => None,
    }
}

/// The signed integer in slot `key`, if any.
pub fn int_slot(t: &Vec<Option<ExecField>>, key: usize) -> (o: Option<i64>)
    requires
        key < t@.len(),
        t@[key as int] is None || t@[key as int] matches Some(ExecField::Int(_)),
    ensures
        o is None <==> t@[key as int] is None,
        o matches Some(v) ==> t@[key as int] == Some(ExecField::Int(v)),
{
    match &t[key] {
        Some(ExecField::Int(v)) => Some(*v),
        _ => None,
    }
}

/// Takes the byte string out of slot `key`, if any.
pub fn take_bytes(t: &mut Vec<Option<ExecField>>, key: usize) -> (o: Option<Vec<u8>>)
    requires
        key < old(t)@.len(),
        old(t)@[key as int] is None || old(t)@[key as int] matches Some(ExecField::Bytes(_)),
    ensures
        final(t)@ == old(t)@.update(key as int, None),
        o is None <==> old(t)@[key as int] is None,
        o matches Some(v) ==> old(t)@[key as int] matches Some(ExecField::Bytes(b)) && b@ == v@,
{
    match take_slot(t, key) {
        Some(ExecField::Bytes(v)) => Some(v),
        _ => None,
    }
}

/// Takes the string out of slot `key`, if any.
pub fn take_text(t: &mut Vec<Option<ExecField>>, key: usize) -> (o: Option<String>)
    requires
        key < old(t)@.len(),
        old(t)@[key as int] is None || old(t)@[key as int] matches Some(ExecField::Text(_)),
    ensures
        final(t)@ == old(t)@.update(key as int, None),
        o is None <==> old(t)@[key as int] is None,
        o matches Some(v) ==> old(t)@[key as int] matches Some(ExecField::Text(b)) && b@ == v@,
{
    match take_slot(t, key) {
        Some(ExecField::Text(v)) => Some(v),
        _ => None,
    }
}

/// Takes the identifier list out of slot `key`, if any.
pub fn take_ids(t: &mut Vec<Option<ExecField>>, key: usize) -> (o: Option<Vec<[u8; 16]>>)
    requires
        key < old(t)@.len(),
        old(t)@[key as int] is None || old(t)@[key as int] matches Some(ExecField::IdList(_)),
    ensures
        final(t)@ == old(t)@.update(key as int, None),
        o is None <==> old(t)@[key as int] is None,
        o matches Some(v) ==> old(t)@[key as int] matches Some(ExecField::IdList(b)) && b@ == v@,
{
    match take_slot(t, key) {
        Some(ExecField::IdList(v)) => Some(v),
        _ => None,
    }
}


/// An upper bound on the length of an entry: two heads and any string content.
pub open spec fn entry_bound(v: FieldValue) -> int {
    match v {
        FieldValue::Bytes(b) => 18 + b.len() as int,
        FieldValue::Text(t) => 18 + encode_utf8(t).len() as int,
        FieldValue::IdList(ids) => 18 + 25 * ids.len() as int,
        _ => 18,
    }
}

pub open spec fn entries_bound(es: Seq<(u64, FieldValue)>) -> int
    decreases es.len(),
{
    if es.len() == 0 {
        0
    } else {
        entry_bound(es[0].1) + entries_bound(es.drop_first())
    }
}

proof fn lemma_head_len(major: u8, v: u64)
    ensures
        crate::cbor::head(major, v).len() <= 9,
{
}

proof fn lemma_id_list_len(ids: Seq<Seq<u8>>)
    requires
        forall|i: int| 0 <= i < ids.len() ==> #[trigger] ids[i].len() == 16,
    ensures
        enc_id_list(ids).len() <= 25 * ids.len(),
    decreases ids.len(),
{
    if ids.len() > 0 {
        lemma_head_len(2, ids[0].len() as u64);
        let tail = ids.drop_first();
        assert forall|i: int| 0 <= i < tail.len() implies #[trigger] tail[i].len() == 16 by {
            assert(tail[i] == ids[i + 1]);
        }
        lemma_id_list_len(tail);
    }
}

/// Entries are no longer than their bound.
pub proof fn lemma_entries_len(es: Seq<(u64, FieldValue)>)
    requires
        forall|i: int|
            0 <= i < es.len() ==> ((#[trigger] es[i]).1 matches FieldValue::IdList(ids) ==> forall|
                j: int,
            | 0 <= j < ids.len() ==> #[trigger] ids[j].len() == 16),
    ensures
        enc_entries(es).len() <= entries_bound(es),
    decreases es.len(),
{
    if es.len() > 0 {
        reveal(enc_field_value);
        lemma_head_len(0, es[0].0);
        match es[0].1 {
            FieldValue::Uint(x) => lemma_head_len(0, x),
            FieldValue::Int(x) => {
                lemma_head_len(0, x as u64);
                lemma_head_len(1, (-1 - x) as u64);
            },
            FieldValue::Bytes(b) => lemma_head_len(2, b.len() as u64),
            FieldValue::Text(t) => lemma_head_len(3, encode_utf8(t).len() as u64),
            FieldValue::IdList(ids) => {
                lemma_head_len(4, ids.len() as u64);
                lemma_id_list_len(ids);
            },
        }
        let tail = es.drop_first();
        assert forall|i: int|
            0 <= i < tail.len() implies ((#[trigger] tail[i]).1 matches FieldValue::IdList(ids)
            ==> forall|j: int| 0 <= j < ids.len() ==> #[trigger] ids[j].len() == 16) by {
            assert(tail[i] == es[i + 1]);
        }
        lemma_entries_len(tail);
    }
}

} // verus!
