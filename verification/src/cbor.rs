//! Canonical CBOR subset used by Mesh Protocol 1.0.
//!
//! Only definite-length unsigned integers, negative integers, byte strings,
//! UTF-8 strings, arrays and maps are written, always in the shortest head
//! form, so the encoding is RFC 8949 canonical. The reader accepts any
//! definite-length head form and refuses indefinite lengths.
use vstd::prelude::*;
use vstd::utf8::*;
use vstd::string::StringSliceAdditionalSpecFns;
use crate::error::WireError;

verus! {

pub const MAJOR_UNSIGNED: u8 = 0;
pub const MAJOR_NEGATIVE: u8 = 1;
pub const MAJOR_BYTES: u8 = 2;
pub const MAJOR_TEXT: u8 = 3;
pub const MAJOR_ARRAY: u8 = 4;
pub const MAJOR_MAP: u8 = 5;
pub const MAJOR_TAG: u8 = 6;
pub const MAJOR_SIMPLE: u8 = 7;
pub const ADDITIONAL_INDEFINITE: u8 = 31;
pub const MAX_SKIP_DEPTH: u8 = 8;
pub const MAX_MAP_ENTRIES: u64 = 64;
pub const MAX_VALUE_BYTES: usize = 69632;

// ---------------------------------------------------------------------------
// What the writer produces
// ---------------------------------------------------------------------------

/// The first byte of a head: major type in the top three bits.
pub open spec fn head_byte(major: u8, additional: int) -> u8 {
    (major * 32 + additional) as u8
}

pub open spec fn be_bytes2(v: int) -> Seq<u8> {
    seq![(v / 0x100 % 0x100) as u8, (v % 0x100) as u8]
}

pub open spec fn be_bytes4(v: int) -> Seq<u8> {
    seq![
        (v / 0x1000000 % 0x100) as u8,
        (v / 0x10000 % 0x100) as u8,
        (v / 0x100 % 0x100) as u8,
        (v % 0x100) as u8,
    ]
}

pub open spec fn be_bytes8(v: int) -> Seq<u8> {
    seq![
        (v / 0x100000000000000 % 0x100) as u8,
        (v / 0x1000000000000 % 0x100) as u8,
        (v / 0x10000000000 % 0x100) as u8,
        (v / 0x100000000 % 0x100) as u8,
        (v / 0x1000000 % 0x100) as u8,
        (v / 0x10000 % 0x100) as u8,
        (v / 0x100 % 0x100) as u8,
        (v % 0x100) as u8,
    ]
}

/// The shortest (canonical) head for a major type and argument.
pub open spec fn head(major: u8, value: u64) -> Seq<u8> {
    if value < 24 {
        seq![head_byte(major, value as int)]
    } else if value <= 0xff {
        seq![head_byte(major, 24), value as u8]
    } else if value <= 0xffff {
        seq![head_byte(major, 25)] + be_bytes2(value as int)
    } else if value <= 0xffff_ffff {
        seq![head_byte(major, 26)] + be_bytes4(value as int)
    } else {
        seq![head_byte(major, 27)] + be_bytes8(value as int)
    }
}

pub open spec fn enc_uint(v: u64) -> Seq<u8> {
    head(MAJOR_UNSIGNED, v)
}

pub open spec fn enc_int(v: i64) -> Seq<u8> {
    if v >= 0 {
        head(MAJOR_UNSIGNED, v as u64)
    } else {
        head(MAJOR_NEGATIVE, (-1 - v) as u64)
    }
}

pub open spec fn enc_bytes(b: Seq<u8>) -> Seq<u8> {
    head(MAJOR_BYTES, b.len() as u64) + b
}

pub open spec fn enc_text(t: Seq<char>) -> Seq<u8> {
    head(MAJOR_TEXT, encode_utf8(t).len() as u64) + encode_utf8(t)
}

pub open spec fn enc_map(n: u64) -> Seq<u8> {
    head(MAJOR_MAP, n)
}

pub open spec fn enc_array(n: u64) -> Seq<u8> {
    head(MAJOR_ARRAY, n)
}

// ---------------------------------------------------------------------------
// What the reader accepts. Each function reads from the front of `s` and
// gives the value and the number of bytes it took.
// ---------------------------------------------------------------------------

pub open spec fn be_value2(s: Seq<u8>) -> int {
    s[0] * 0x100 + s[1]
}

pub open spec fn be_value4(s: Seq<u8>) -> int {
    s[0] * 0x1000000 + s[1] * 0x10000 + s[2] * 0x100 + s[3]
}

pub open spec fn be_value8(s: Seq<u8>) -> int {
    s[0] * 0x100000000000000 + s[1] * 0x1000000000000 + s[2] * 0x10000000000 + s[3]
        * 0x100000000 + s[4] * 0x1000000 + s[5] * 0x10000 + s[6] * 0x100 + s[7]
}

pub open spec fn spec_read_exact(s: Seq<u8>, len: int) -> Result<Seq<u8>, WireError> {
    if len > MAX_VALUE_BYTES {
        Err(WireError::CborLimit)
    } else if len > s.len() {
        Err(WireError::TruncatedCbor)
    } else {
        Ok(s.take(len))
    }
}

/// A head: major type, argument, and the number of bytes it took.
pub open spec fn spec_read_header(s: Seq<u8>) -> Result<(u8, u64, int), WireError> {
    if s.len() == 0 {
        Err(WireError::TruncatedCbor)
    } else {
        let first = s[0];
        let major = first / 32;
        let additional = first % 32;
        if additional == ADDITIONAL_INDEFINITE {
            Err(WireError::IndefiniteCbor)
        } else if additional < 24 {
            Ok((major, additional as u64, 1))
        } else if additional == 24 {
            if s.len() < 2 {
                Err(WireError::TruncatedCbor)
            } else {
                Ok((major, s[1] as u64, 2))
            }
        } else if additional == 25 {
            if s.len() < 3 {
                Err(WireError::TruncatedCbor)
            } else {
                Ok((major, be_value2(s.subrange(1, 3)) as u64, 3))
            }
        } else if additional == 26 {
            if s.len() < 5 {
                Err(WireError::TruncatedCbor)
            } else {
                Ok((major, be_value4(s.subrange(1, 5)) as u64, 5))
            }
        } else if additional == 27 {
            if s.len() < 9 {
                Err(WireError::TruncatedCbor)
            } else {
                Ok((major, be_value8(s.subrange(1, 9)) as u64, 9))
            }
        } else {
            Err(WireError::UnexpectedCborType)
        }
    }
}

pub open spec fn spec_read_u64(s: Seq<u8>) -> Result<(u64, int), WireError> {
    match spec_read_header(s) {
        Err(e) => Err(e),
        Ok((major, value, n)) => if major != MAJOR_UNSIGNED {
            Err(WireError::UnexpectedCborType)
        } else {
            Ok((value, n))
        },
    }
}

pub open spec fn spec_read_map(s: Seq<u8>) -> Result<(u64, int), WireError> {
    match spec_read_header(s) {
        Err(e) => Err(e),
        Ok((major, value, n)) => if major != MAJOR_MAP {
            Err(WireError::UnexpectedCborType)
        } else if value > MAX_MAP_ENTRIES {
            Err(WireError::CborLimit)
        } else {
            Ok((value, n))
        },
    }
}

pub open spec fn spec_read_array(s: Seq<u8>) -> Result<(u64, int), WireError> {
    match spec_read_header(s) {
        Err(e) => Err(e),
        Ok((major, value, n)) => if major != MAJOR_ARRAY {
            Err(WireError::UnexpectedCborType)
        } else {
            Ok((value, n))
        },
    }
}

pub open spec fn spec_read_i64(s: Seq<u8>) -> Result<(i64, int), WireError> {
    match spec_read_header(s) {
        Err(e) => Err(e),
        Ok((major, value, n)) => if major == MAJOR_UNSIGNED {
            if value > i64::MAX {
                Err(WireError::IntegerOutOfRange)
            } else {
                Ok((value as i64, n))
            }
        } else if major == MAJOR_NEGATIVE {
            if value > i64::MAX {
                Err(WireError::IntegerOutOfRange)
            } else {
                Ok(((-1 - value) as i64, n))
            }
        } else {
            Err(WireError::UnexpectedCborType)
        },
    }
}

/// The content of a byte or text string of the given major type.
pub open spec fn spec_read_string(s: Seq<u8>, expected: u8) -> Result<(Seq<u8>, int), WireError> {
    match spec_read_header(s) {
        Err(e) => Err(e),
        Ok((major, value, n)) => if major != expected {
            Err(WireError::UnexpectedCborType)
        } else {
            match spec_read_exact(s.skip(n), value as int) {
                Err(e) => Err(e),
                Ok(b) => Ok((b, n + value)),
            }
        },
    }
}

pub open spec fn spec_read_bytes(s: Seq<u8>) -> Result<(Seq<u8>, int), WireError> {
    spec_read_string(s, MAJOR_BYTES)
}

pub open spec fn spec_read_text(s: Seq<u8>) -> Result<(Seq<char>, int), WireError> {
    match spec_read_string(s, MAJOR_TEXT) {
        Err(e) => Err(e),
        Ok((b, n)) => if valid_utf8(b) {
            Ok((decode_utf8(b), n))
        } else {
            Err(WireError::InvalidUtf8)
        },
    }
}

/// Skipping one item of any type, nested at most `MAX_SKIP_DEPTH` levels:
/// the number of bytes it takes.
pub open spec fn spec_skip(s: Seq<u8>, depth: nat) -> Result<int, WireError>
    decreases 10 - depth, 0int, 0int,
{
    if depth > MAX_SKIP_DEPTH {
        Err(WireError::CborLimit)
    } else {
        match spec_read_header(s) {
            Err(e) => Err(e),
            Ok((major, value, n)) => {
                if major == MAJOR_UNSIGNED || major == MAJOR_NEGATIVE {
                    Ok(n)
                } else if major == MAJOR_BYTES || major == MAJOR_TEXT {
                    match spec_read_exact(s.skip(n), value as int) {
                        Err(e) => Err(e),
                        Ok(_) => Ok(n + value),
                    }
                } else if major == MAJOR_ARRAY {
                    match spec_skip_n(s.skip(n), depth + 1, value as nat) {
                        Err(e) => Err(e),
                        Ok(k) => Ok(n + k),
                    }
                } else if major == MAJOR_MAP {
                    if value > MAX_MAP_ENTRIES {
                        Err(WireError::CborLimit)
                    } else {
                        match spec_skip_n(s.skip(n), depth + 1, 2 * value as nat) {
                            Err(e) => Err(e),
                            Ok(k) => Ok(n + k),
                        }
                    }
                } else if major == MAJOR_TAG {
                    match spec_skip(s.skip(n), depth + 1) {
                        Err(e) => Err(e),
                        Ok(k) => Ok(n + k),
                    }
                } else if major == MAJOR_SIMPLE {
                    if 20 <= value <= 23 {
                        Ok(n)
                    } else if value == 25 || value == 26 || value == 27 {
                        let len: int = if value == 25 { 2 } else if value == 26 { 4 } else { 8 };
                        match spec_read_exact(s.skip(n), len) {
                            Err(e) => Err(e),
                            Ok(_) => Ok(n + len),
                        }
                    } else {
                        Err(WireError::UnexpectedCborType)
                    }
                } else {
                    Err(WireError::UnexpectedCborType)
                }
            },
        }
    }
}

/// Skipping `count` items in a row, each at the given depth.
pub open spec fn spec_skip_n(s: Seq<u8>, depth: nat, count: nat) -> Result<int, WireError>
    decreases 10 - depth, 1int, count,
{
    if count == 0 {
        Ok(0)
    } else if depth > MAX_SKIP_DEPTH {
        Err(WireError::CborLimit)
    } else {
        match spec_skip(s, depth) {
            Err(e) => Err(e),
            Ok(k) => match spec_skip_n(s.skip(k), depth, (count - 1) as nat) {
                Err(e) => Err(e),
                Ok(j) => Ok(k + j),
            },
        }
    }
}

// ---------------------------------------------------------------------------
// Writer
// ---------------------------------------------------------------------------

/// Appends `s` to `buf`.
pub fn push_all(buf: &mut Vec<u8>, s: &[u8])
    ensures
        final(buf)@ == old(buf)@ + s@,
{
    let mut i: usize = 0;
    while i < s.len()
        invariant
            i <= s@.len(),
            buf@ == old(buf)@ + s@.take(i as int),
        decreases s@.len() - i,
    {
        buf.push(s[i]);
        i = i + 1;
        assert(buf@ =~= old(buf)@ + s@.take(i as int));
    }
    assert(s@.take(i as int) =~= s@);
}

/// Builds canonical CBOR into a growing buffer.
pub struct CborWriter {
    buf: Vec<u8>,
}

impl View for CborWriter {
    type V = Seq<u8>;

    closed spec fn view(&self) -> Seq<u8> {
        self.buf@
    }
}

impl CborWriter {
    pub fn new() -> (w: Self)
        ensures
            w@ == Seq::<u8>::empty(),
    {
        CborWriter { buf: Vec::new() }
    }

    pub fn into_inner(self) -> (v: Vec<u8>)
        ensures
            v@ == self@,
    {
        self.buf
    }

    pub fn map(&mut self, len: u64)
        ensures
            final(self)@ == old(self)@ + enc_map(len),
    {
        self.write_header(MAJOR_MAP, len);
    }

    pub fn array(&mut self, len: u64)
        ensures
            final(self)@ == old(self)@ + enc_array(len),
    {
        self.write_header(MAJOR_ARRAY, len);
    }

    pub fn u64(&mut self, value: u64)
        ensures
            final(self)@ == old(self)@ + enc_uint(value),
    {
        self.write_header(MAJOR_UNSIGNED, value);
    }

    pub fn i64(&mut self, value: i64)
        ensures
            final(self)@ == old(self)@ + enc_int(value),
    {
        if value >= 0 {
            self.u64(value as u64);
        } else {
            let n: u64 = (-(value + 1)) as u64;
            self.write_header(MAJOR_NEGATIVE, n);
        }
    }

    pub fn bytes(&mut self, value: &[u8])
        ensures
            final(self)@ == old(self)@ + enc_bytes(value@),
    {
        self.write_header(MAJOR_BYTES, value.len() as u64);
        push_all(&mut self.buf, value);
        assert(self@ =~= old(self)@ + enc_bytes(value@));
    }

    pub fn text(&mut self, value: &str)
        ensures
            final(self)@ == old(self)@ + enc_text(value@),
    {
        let b = value.as_bytes();
        self.write_header(MAJOR_TEXT, b.len() as u64);
        push_all(&mut self.buf, b);
        assert(self@ =~= old(self)@ + enc_text(value@));
    }

    fn write_header(&mut self, major: u8, value: u64)
        requires
            major < 8,
        ensures
            final(self)@ == old(self)@ + head(major, value),
    {
        let mt: u8 = major * 32;
        if value < 24 {
            self.buf.push(mt + value as u8);
        } else if value <= 0xff {
            self.buf.push(mt + 24);
            self.buf.push(value as u8);
        } else if value <= 0xffff {
            self.buf.push(mt + 25);
            self.buf.push((value / 0x100 % 0x100) as u8);
            self.buf.push((value % 0x100) as u8);
        } else if value <= 0xffff_ffff {
            self.buf.push(mt + 26);
            self.buf.push((value / 0x1000000 % 0x100) as u8);
            self.buf.push((value / 0x10000 % 0x100) as u8);
            self.buf.push((value / 0x100 % 0x100) as u8);
            self.buf.push((value % 0x100) as u8);
        } else {
            self.buf.push(mt + 27);
            self.buf.push((value / 0x100000000000000 % 0x100) as u8);
            self.buf.push((value / 0x1000000000000 % 0x100) as u8);
            self.buf.push((value / 0x10000000000 % 0x100) as u8);
            self.buf.push((value / 0x100000000 % 0x100) as u8);
            self.buf.push((value / 0x1000000 % 0x100) as u8);
            self.buf.push((value / 0x10000 % 0x100) as u8);
            self.buf.push((value / 0x100 % 0x100) as u8);
            self.buf.push((value % 0x100) as u8);
        }
        assert(self@ =~= old(self)@ + head(major, value));
    }
}


// ---------------------------------------------------------------------------
// Reader
// ---------------------------------------------------------------------------

/// `std::str::from_utf8`: the bytes as a string slice, exactly when they are
/// valid UTF-8 (the standard library's documented condition); the slice's
/// bytes are the given bytes.
#[verifier::external_body]
fn str_from_utf8<'a>(bytes: &'a [u8]) -> (res: Option<&'a str>)
    ensures
        res is Some <==> valid_utf8(bytes@),
        res matches Some(t) ==> t.spec_bytes() == bytes@,
{
    std::str::from_utf8(bytes).ok()
}

/// Reads CBOR items from the front of a byte slice.
pub struct CborReader<'a> {
    data: &'a [u8],
    pos: usize,
}

impl<'a> CborReader<'a> {
    /// The reader never runs past its data.
    #[verifier::type_invariant]
    pub open spec fn inv(self) -> bool {
        0 <= self.pos() <= self.data().len()
    }

    /// All the bytes the reader was made with.
    pub closed spec fn data(self) -> Seq<u8> {
        self.data@
    }

    /// How many bytes have been read.
    pub closed spec fn pos(self) -> int {
        self.pos as int
    }

    /// The bytes not read yet.
    pub open spec fn rest(self) -> Seq<u8> {
        self.data().skip(self.pos())
    }

    pub fn new(data: &'a [u8]) -> (r: Self)
        ensures
            r.data() == data@,
            r.pos() == 0,
            r.rest() == data@,
    {
        let r = CborReader { data, pos: 0 };
        assert(r.rest() =~= data@);
        r
    }

    /// Succeeds exactly when every byte has been read.
    pub fn finish(self) -> (res: Result<(), WireError>)
        ensures
            res is Ok <==> self.rest().len() == 0,
            res is Err ==> res == Err::<(), WireError>(WireError::TrailingCbor),
    {
        proof { use_type_invariant(&self); }
        if self.pos == self.data.len() {
            Ok(())
        } else {
            Err(WireError::TrailingCbor)
        }
    }

    pub fn map(&mut self) -> (res: Result<u64, WireError>)
        ensures
            final(self).data() == old(self).data(),
            match spec_read_map(old(self).rest()) {
                Ok((v, n)) => res == Ok::<u64, WireError>(v) && final(self).pos() == old(self).pos() + n,
                Err(e) => res == Err::<u64, WireError>(e),
            },
    {
        let (major, value) = self.read_header()?;
        if major != MAJOR_MAP {
            return Err(WireError::UnexpectedCborType);
        }
        if value > MAX_MAP_ENTRIES {
            return Err(WireError::CborLimit);
        }
        Ok(value)
    }

    pub fn array(&mut self) -> (res: Result<u64, WireError>)
        ensures
            final(self).data() == old(self).data(),
            match spec_read_array(old(self).rest()) {
                Ok((v, n)) => res == Ok::<u64, WireError>(v) && final(self).pos() == old(self).pos() + n,
                Err(e) => res == Err::<u64, WireError>(e),
            },
    {
        let (major, value) = self.read_header()?;
        if major != MAJOR_ARRAY {
            return Err(WireError::UnexpectedCborType);
        }
        Ok(value)
    }

    pub fn u64(&mut self) -> (res: Result<u64, WireError>)
        ensures
            final(self).data() == old(self).data(),
            match spec_read_u64(old(self).rest()) {
                Ok((v, n)) => res == Ok::<u64, WireError>(v) && final(self).pos() == old(self).pos() + n,
                Err(e) => res == Err::<u64, WireError>(e),
            },
    {
        let (major, value) = self.read_header()?;
        if major != MAJOR_UNSIGNED {
            return Err(WireError::UnexpectedCborType);
        }
        Ok(value)
    }

    pub fn i64(&mut self) -> (res: Result<i64, WireError>)
        ensures
            final(self).data() == old(self).data(),
            match spec_read_i64(old(self).rest()) {
                Ok((v, n)) => res == Ok::<i64, WireError>(v) && final(self).pos() == old(self).pos() + n,
                Err(e) => res == Err::<i64, WireError>(e),
            },
    {
        let (major, value) = self.read_header()?;
        if major == MAJOR_UNSIGNED {
            if value > i64::MAX as u64 {
                Err(WireError::IntegerOutOfRange)
            } else {
                Ok(value as i64)
            }
        } else if major == MAJOR_NEGATIVE {
            if value > i64::MAX as u64 {
                Err(WireError::IntegerOutOfRange)
            } else {
                Ok(-1 - (value as i64))
            }
        } else {
            Err(WireError::UnexpectedCborType)
        }
    }

    pub fn bytes(&mut self) -> (res: Result<&'a [u8], WireError>)
        ensures
            final(self).data() == old(self).data(),
            match spec_read_bytes(old(self).rest()) {
                Ok((b, n)) => res matches Ok(r) && r@ == b && final(self).pos() == old(self).pos() + n,
                Err(e) => res == Err::<&[u8], WireError>(e),
            },
    {
        let ghost p0 = self.pos();
        let (major, value) = self.read_header()?;
        proof {
            use_type_invariant(&*self);
            lemma_rest_skip(self.data(), p0, self.pos() - p0);
        }
        if major != MAJOR_BYTES {
            return Err(WireError::UnexpectedCborType);
        }
        self.read_string_content(value)
    }

    pub fn text(&mut self) -> (res: Result<&'a str, WireError>)
        ensures
            final(self).data() == old(self).data(),
            match spec_read_text(old(self).rest()) {
                Ok((t, n)) => res matches Ok(r) && r@ == t && final(self).pos() == old(self).pos() + n,
                Err(e) => res == Err::<&str, WireError>(e),
            },
    {
        let ghost p0 = self.pos();
        let (major, value) = self.read_header()?;
        proof {
            use_type_invariant(&*self);
            lemma_rest_skip(self.data(), p0, self.pos() - p0);
        }
        if major != MAJOR_TEXT {
            return Err(WireError::UnexpectedCborType);
        }
        let bytes = self.read_string_content(value)?;
        match str_from_utf8(bytes) {
            Some(t) => {
                proof {
                    decode_utf8_encode_utf8(bytes@);
                    encode_utf8_decode_utf8(t@);
                }
                Ok(t)
            },
            None => Err(WireError::InvalidUtf8),
        }
    }

    /// The string content after a head whose argument is `value`.
    fn read_string_content(&mut self, value: u64) -> (res: Result<&'a [u8], WireError>)
        ensures
            final(self).data() == old(self).data(),
            match spec_read_exact(old(self).rest(), value as int) {
                Ok(b) => res matches Ok(r) && r@ == b && final(self).pos() == old(self).pos() + value,
                Err(e) => res == Err::<&[u8], WireError>(e),
            },
    {
        if value > MAX_VALUE_BYTES as u64 {
            return Err(WireError::CborLimit);
        }
        self.read_exact(value as usize)
    }

    pub fn skip_value(&mut self) -> (res: Result<(), WireError>)
        ensures
            final(self).data() == old(self).data(),
            match spec_skip(old(self).rest(), 0) {
                Ok(n) => res is Ok && final(self).pos() == old(self).pos() + n,
                Err(e) => res == Err::<(), WireError>(e),
            },
    {
        self.skip_value_at_depth(0)
    }

    fn skip_value_at_depth(&mut self, depth: u8) -> (res: Result<(), WireError>)
        ensures
            final(self).data() == old(self).data(),
            match spec_skip(old(self).rest(), depth as nat) {
                Ok(n) => res is Ok && final(self).pos() == old(self).pos() + n,
                Err(e) => res == Err::<(), WireError>(e),
            },
        decreases 10 - depth, 0int,
    {
        if depth > MAX_SKIP_DEPTH {
            return Err(WireError::CborLimit);
        }
        let ghost start = self.rest();
        let ghost p0 = self.pos();
        let (major, value) = self.read_header()?;
        let ghost n = self.pos() - p0;
        proof {
            use_type_invariant(&*self);
            lemma_rest_skip(self.data(), p0, n);
        }
        if major == MAJOR_UNSIGNED || major == MAJOR_NEGATIVE {
            Ok(())
        } else if major == MAJOR_BYTES || major == MAJOR_TEXT {
            self.read_string_content(value)?;
            Ok(())
        } else if major == MAJOR_ARRAY {
            self.skip_items(depth + 1, value)
        } else if major == MAJOR_MAP {
            if value > MAX_MAP_ENTRIES {
                return Err(WireError::CborLimit);
            }
            self.skip_items(depth + 1, 2 * value)
        } else if major == MAJOR_TAG {
            self.skip_value_at_depth(depth + 1)
        } else {
            if 20 <= value && value <= 23 {
                Ok(())
            } else if value == 25 {
                self.read_exact(2)?;
                Ok(())
            } else if value == 26 {
                self.read_exact(4)?;
                Ok(())
            } else if value == 27 {
                self.read_exact(8)?;
                Ok(())
            } else {
                Err(WireError::UnexpectedCborType)
            }
        }
    }

    /// Skips `count` items, each at the given depth.
    fn skip_items(&mut self, depth: u8, count: u64) -> (res: Result<(), WireError>)
        requires
            1 <= depth <= 9,
        ensures
            final(self).data() == old(self).data(),
            match spec_skip_n(old(self).rest(), depth as nat, count as nat) {
                Ok(n) => res is Ok && final(self).pos() == old(self).pos() + n,
                Err(e) => res == Err::<(), WireError>(e),
            },
        decreases 10 - depth, 1int,
    {
        proof { use_type_invariant(&*self); }
        let ghost s0 = self.rest();
        let ghost p0 = self.pos();
        let mut i: u64 = 0;
        while i < count
            invariant
                1 <= depth <= 9,
                i <= count,
                self.data() == old(self).data(),
                p0 == old(self).pos(),
                s0 == old(self).rest(),
                p0 <= self.pos() <= self.data().len(),
                spec_skip_n(s0, depth as nat, count as nat) == (match spec_skip_n(
                    self.rest(),
                    depth as nat,
                    (count - i) as nat,
                ) {
                    Err(e) => Err(e),
                    Ok(k) => Ok(self.pos() - p0 + k),
                }),
            decreases count - i,
        {
            proof { use_type_invariant(&*self); }
            let ghost before = self.rest();
            let ghost pb = self.pos();
            if depth > MAX_SKIP_DEPTH {
                return Err(WireError::CborLimit);
            }
            let r = self.skip_value_at_depth(depth);
            match r {
                Err(e) => {
                    return Err(e);
                },
                Ok(()) => {},
            }
            proof {
                use_type_invariant(&*self);
                lemma_skip_bounds(before, depth as nat);
                let k = self.pos() - pb;
                lemma_rest_skip(self.data(), pb, k);
            }
            i = i + 1;
        }
        Ok(())
    }

    fn read_header(&mut self) -> (res: Result<(u8, u64), WireError>)
        ensures
            final(self).data() == old(self).data(),
            match spec_read_header(old(self).rest()) {
                Ok((m, v, n)) => res == Ok::<(u8, u64), WireError>((m, v)) && final(self).pos()
                    == old(self).pos() + n && m < 8,
                Err(e) => res == Err::<(u8, u64), WireError>(e),
            },
    {
        proof { use_type_invariant(&*self); }
        let ghost s = self.rest();
        if self.pos >= self.data.len() {
            return Err(WireError::TruncatedCbor);
        }
        let first = self.data[self.pos];
        assert(first == s[0]);
        let major = first / 32;
        let additional = first % 32;
        if additional == ADDITIONAL_INDEFINITE {
            return Err(WireError::IndefiniteCbor);
        }
        if additional < 24 {
            self.pos = self.pos + 1;
            return Ok((major, additional as u64));
        }
        let avail = self.data.len() - self.pos;
        let p = self.pos;
        if additional == 24 {
            if avail < 2 {
                return Err(WireError::TruncatedCbor);
            }
            let b = self.data[p + 1];
            assert(b == s[1]);
            self.pos = p + 2;
            Ok((major, b as u64))
        } else if additional == 25 {
            if avail < 3 {
                return Err(WireError::TruncatedCbor);
            }
            let v = (self.data[p + 1] as u64) * 0x100 + (self.data[p + 2] as u64);
            assert(s.subrange(1, 3)[0] == self.data@[p + 1]);
            assert(s.subrange(1, 3)[1] == self.data@[p + 2]);
            self.pos = p + 3;
            Ok((major, v))
        } else if additional == 26 {
            if avail < 5 {
                return Err(WireError::TruncatedCbor);
            }
            let v = (self.data[p + 1] as u64) * 0x1000000 + (self.data[p + 2] as u64) * 0x10000
                + (self.data[p + 3] as u64) * 0x100 + (self.data[p + 4] as u64);
            assert(s.subrange(1, 5)[0] == self.data@[p + 1]);
            assert(s.subrange(1, 5)[1] == self.data@[p + 2]);
            assert(s.subrange(1, 5)[2] == self.data@[p + 3]);
            assert(s.subrange(1, 5)[3] == self.data@[p + 4]);
            self.pos = p + 5;
            Ok((major, v))
        } else if additional == 27 {
            if avail < 9 {
                return Err(WireError::TruncatedCbor);
            }
            let v = (self.data[p + 1] as u64) * 0x100000000000000 + (self.data[p + 2] as u64)
                * 0x1000000000000 + (self.data[p + 3] as u64) * 0x10000000000 + (self.data[p
                + 4] as u64) * 0x100000000 + (self.data[p + 5] as u64) * 0x1000000
                + (self.data[p + 6] as u64) * 0x10000 + (self.data[p + 7] as u64) * 0x100
                + (self.data[p + 8] as u64);
            assert(s.subrange(1, 9)[0] == self.data@[p + 1]);
            assert(s.subrange(1, 9)[1] == self.data@[p + 2]);
            assert(s.subrange(1, 9)[2] == self.data@[p + 3]);
            assert(s.subrange(1, 9)[3] == self.data@[p + 4]);
            assert(s.subrange(1, 9)[4] == self.data@[p + 5]);
            assert(s.subrange(1, 9)[5] == self.data@[p + 6]);
            assert(s.subrange(1, 9)[6] == self.data@[p + 7]);
            assert(s.subrange(1, 9)[7] == self.data@[p + 8]);
            self.pos = p + 9;
            Ok((major, v))
        } else {
            Err(WireError::UnexpectedCborType)
        }
    }

    fn read_exact(&mut self, len: usize) -> (res: Result<&'a [u8], WireError>)
        ensures
            final(self).data() == old(self).data(),
            match spec_read_exact(old(self).rest(), len as int) {
                Ok(b) => res matches Ok(r) && r@ == b && final(self).pos() == old(self).pos() + len,
                Err(e) => res == Err::<&[u8], WireError>(e),
            },
    {
        proof { use_type_invariant(&*self); }
        if len > MAX_VALUE_BYTES {
            return Err(WireError::CborLimit);
        }
        if len > self.data.len() - self.pos {
            return Err(WireError::TruncatedCbor);
        }
        let end = self.pos + len;
        let slice = vstd::slice::slice_subrange(self.data, self.pos, end);
        assert(slice@ =~= old(self).rest().take(len as int));
        self.pos = end;
        Ok(slice)
    }
}

/// Skipping `n` more bytes after `p` of `data` leaves `data.skip(p + n)`.
pub proof fn lemma_rest_skip(data: Seq<u8>, p: int, n: int)
    requires
        0 <= p,
        0 <= n,
        p + n <= data.len(),
    ensures
        data.skip(p).skip(n) == data.skip(p + n),
{
    assert(data.skip(p).skip(n) =~= data.skip(p + n));
}


/// Header reads take between one and nine bytes of what is there.
pub proof fn lemma_header_bounds(s: Seq<u8>)
    ensures
        spec_read_header(s) matches Ok((m, v, n)) ==> 1 <= n <= 9 && n <= s.len() && m < 8,
{
}

/// A skip takes at least one byte and never more than there is.
pub proof fn lemma_skip_bounds(s: Seq<u8>, depth: nat)
    ensures
        spec_skip(s, depth) matches Ok(k) ==> 1 <= k <= s.len(),
    decreases 10 - depth, 0int, 0int,
{
    if depth <= MAX_SKIP_DEPTH {
        lemma_header_bounds(s);
        if let Ok((major, value, n)) = spec_read_header(s) {
            if major == MAJOR_ARRAY {
                lemma_skip_n_bounds(s.skip(n), depth + 1, value as nat);
            } else if major == MAJOR_MAP && value <= MAX_MAP_ENTRIES {
                lemma_skip_n_bounds(s.skip(n), depth + 1, 2 * value as nat);
            } else if major == MAJOR_TAG {
                lemma_skip_bounds(s.skip(n), depth + 1);
            }
        }
    }
}

/// Skipping several items never takes more than there is.
pub proof fn lemma_skip_n_bounds(s: Seq<u8>, depth: nat, count: nat)
    ensures
        spec_skip_n(s, depth, count) matches Ok(k) ==> 0 <= k <= s.len(),
    decreases 10 - depth, 1int, count,
{
    if count > 0 && depth <= MAX_SKIP_DEPTH {
        lemma_skip_bounds(s, depth);
        if let Ok(k) = spec_skip(s, depth) {
            lemma_skip_n_bounds(s.skip(k), depth, (count - 1) as nat);
        }
    }
}


// ---------------------------------------------------------------------------
// What is written reads back
// ---------------------------------------------------------------------------

proof fn lemma_head_byte(major: u8, a: int)
    requires
        major < 8,
        0 <= a < 32,
    ensures
        head_byte(major, a) / 32 == major,
        head_byte(major, a) % 32 == a,
{
    assert(0 <= major * 32 + a < 256);
}

proof fn lemma_be2(v: int)
    requires
        0 <= v < 0x10000,
    ensures
        be_value2(be_bytes2(v)) == v,
{
}

proof fn lemma_be4(v: int)
    requires
        0 <= v < 0x100000000,
    ensures
        be_value4(be_bytes4(v)) == v,
{
}

proof fn lemma_be8(v: int)
    requires
        0 <= v < 0x10000000000000000,
    ensures
        be_value8(be_bytes8(v)) == v,
{
    let x = v as u64;
    assert((x / 0x100000000000000 % 0x100) * 0x100000000000000 + (x / 0x1000000000000 % 0x100)
        * 0x1000000000000 + (x / 0x10000000000 % 0x100) * 0x10000000000 + (x / 0x100000000
        % 0x100) * 0x100000000 + (x / 0x1000000 % 0x100) * 0x1000000 + (x / 0x10000 % 0x100)
        * 0x10000 + (x / 0x100 % 0x100) * 0x100 + x % 0x100 == x) by (bit_vector);
}

/// A canonical head reads back as the same major type and argument.
pub proof fn lemma_read_head(major: u8, value: u64, rest: Seq<u8>)
    requires
        major < 8,
    ensures
        spec_read_header(head(major, value) + rest) == Ok::<(u8, u64, int), WireError>(
            (major, value, head(major, value).len() as int),
        ),
        1 <= head(major, value).len() <= 9,
{
    let h = head(major, value);
    let s = h + rest;
    if value < 24 {
        lemma_head_byte(major, value as int);
    } else if value <= 0xff {
        lemma_head_byte(major, 24);
    } else if value <= 0xffff {
        lemma_head_byte(major, 25);
        lemma_be2(value as int);
        assert(s.subrange(1, 3) =~= be_bytes2(value as int));
    } else if value <= 0xffff_ffff {
        lemma_head_byte(major, 26);
        lemma_be4(value as int);
        assert(s.subrange(1, 5) =~= be_bytes4(value as int));
    } else {
        lemma_head_byte(major, 27);
        lemma_be8(value as int);
        assert(s.subrange(1, 9) =~= be_bytes8(value as int));
    }
}

pub proof fn lemma_read_uint(v: u64, rest: Seq<u8>)
    ensures
        spec_read_u64(enc_uint(v) + rest) == Ok::<(u64, int), WireError>((v, enc_uint(v).len() as int)),
{
    lemma_read_head(MAJOR_UNSIGNED, v, rest);
}

pub proof fn lemma_read_map(n: u64, rest: Seq<u8>)
    requires
        n <= MAX_MAP_ENTRIES,
    ensures
        spec_read_map(enc_map(n) + rest) == Ok::<(u64, int), WireError>((n, enc_map(n).len() as int)),
{
    lemma_read_head(MAJOR_MAP, n, rest);
}

pub proof fn lemma_read_array(n: u64, rest: Seq<u8>)
    ensures
        spec_read_array(enc_array(n) + rest) == Ok::<(u64, int), WireError>((n, enc_array(n).len() as int)),
{
    lemma_read_head(MAJOR_ARRAY, n, rest);
}

pub proof fn lemma_read_int(v: i64, rest: Seq<u8>)
    ensures
        spec_read_i64(enc_int(v) + rest) == Ok::<(i64, int), WireError>((v, enc_int(v).len() as int)),
{
    if v >= 0 {
        lemma_read_head(MAJOR_UNSIGNED, v as u64, rest);
    } else {
        lemma_read_head(MAJOR_NEGATIVE, (-1 - v) as u64, rest);
    }
}

pub proof fn lemma_read_bytes(b: Seq<u8>, rest: Seq<u8>)
    requires
        b.len() <= MAX_VALUE_BYTES,
    ensures
        spec_read_bytes(enc_bytes(b) + rest) == Ok::<(Seq<u8>, int), WireError>((b, enc_bytes(b).len() as int)),
{
    let h = head(MAJOR_BYTES, b.len() as u64);
    lemma_read_head(MAJOR_BYTES, b.len() as u64, b + rest);
    assert(enc_bytes(b) + rest =~= h + (b + rest));
    assert((h + (b + rest)).skip(h.len() as int) =~= b + rest);
    assert((b + rest).take(b.len() as int) =~= b);
}

pub proof fn lemma_read_text(t: Seq<char>, rest: Seq<u8>)
    requires
        encode_utf8(t).len() <= MAX_VALUE_BYTES,
    ensures
        spec_read_text(enc_text(t) + rest) == Ok::<(Seq<char>, int), WireError>((t, enc_text(t).len() as int)),
{
    let b = encode_utf8(t);
    let h = head(MAJOR_TEXT, b.len() as u64);
    lemma_read_head(MAJOR_TEXT, b.len() as u64, b + rest);
    assert(enc_text(t) + rest =~= h + (b + rest));
    assert((h + (b + rest)).skip(h.len() as int) =~= b + rest);
    assert((b + rest).take(b.len() as int) =~= b);
    encode_utf8_valid_utf8(t);
    encode_utf8_decode_utf8(t);
}


/// Every successful read takes at least one byte and no more than there is.
pub proof fn lemma_read_counts(s: Seq<u8>)
    ensures
        spec_read_u64(s) matches Ok((v, n)) ==> 1 <= n <= s.len(),
        spec_read_map(s) matches Ok((v, n)) ==> 1 <= n <= s.len(),
        spec_read_array(s) matches Ok((v, n)) ==> 1 <= n <= s.len(),
        spec_read_i64(s) matches Ok((v, n)) ==> 1 <= n <= s.len(),
        spec_read_bytes(s) matches Ok((b, n)) ==> 1 <= n <= s.len() && b.len() <= MAX_VALUE_BYTES,
        spec_read_text(s) matches Ok((t, n)) ==> 1 <= n <= s.len(),
{
    lemma_header_bounds(s);
}

// ---------------------------------------------------------------------------
// Skipping a well-formed item
// ---------------------------------------------------------------------------

/// A head of the given width: 0 puts the argument in the first byte,
/// 1, 2, 3 and 4 put it in the 1, 2, 4 or 8 bytes that follow. Any width the
/// argument fits in is read alike, shortest or not.
pub open spec fn head_with(major: u8, value: u64, width: u8) -> Seq<u8> {
    if width == 0 {
        seq![head_byte(major, value as int)]
    } else if width == 1 {
        seq![head_byte(major, 24), value as u8]
    } else if width == 2 {
        seq![head_byte(major, 25)] + be_bytes2(value as int)
    } else if width == 3 {
        seq![head_byte(major, 26)] + be_bytes4(value as int)
    } else {
        seq![head_byte(major, 27)] + be_bytes8(value as int)
    }
}

/// The argument fits in a head of the given width.
pub open spec fn head_fits(value: u64, width: u8) -> bool {
    &&& width <= 4
    &&& width == 0 ==> value < 24
    &&& width == 1 ==> value <= 0xff
    &&& width == 2 ==> value <= 0xffff
    &&& width == 3 ==> value <= 0xffff_ffff
}

/// A head of any width the argument fits in reads back as the same major
/// type and argument.
pub proof fn lemma_read_head_with(major: u8, value: u64, width: u8, rest: Seq<u8>)
    requires
        major < 8,
        head_fits(value, width),
    ensures
        spec_read_header(head_with(major, value, width) + rest) == Ok::<(u8, u64, int), WireError>(
            (major, value, head_with(major, value, width).len() as int),
        ),
        1 <= head_with(major, value, width).len() <= 9,
{
    let h = head_with(major, value, width);
    let s = h + rest;
    if width == 0 {
        lemma_head_byte(major, value as int);
    } else if width == 1 {
        lemma_head_byte(major, 24);
    } else if width == 2 {
        lemma_head_byte(major, 25);
        lemma_be2(value as int);
        assert(s.subrange(1, 3) =~= be_bytes2(value as int));
    } else if width == 3 {
        lemma_head_byte(major, 26);
        lemma_be4(value as int);
        assert(s.subrange(1, 5) =~= be_bytes4(value as int));
    } else {
        lemma_head_byte(major, 27);
        lemma_be8(value as int);
        assert(s.subrange(1, 9) =~= be_bytes8(value as int));
    }
}

/// A definite-length CBOR data item, as a tree. Each variant's first field
/// is the width of its head (see `head_with`). A map holds its keys and
/// values in one list, alternating.
pub enum CborItem {
    Unsigned(u8, u64),
    Negative(u8, u64),
    Bytes(u8, Seq<u8>),
    Text(u8, Seq<u8>),
    Array(u8, Seq<CborItem>),
    MapEntries(u8, Seq<CborItem>),
    Tag(u8, u64, Box<CborItem>),
    Simple(u8, u8),
}

/// An item's encoding, each head in the width the item gives it.
pub open spec fn enc_item(i: CborItem) -> Seq<u8>
    decreases i,
{
    match i {
        CborItem::Unsigned(w, v) => head_with(MAJOR_UNSIGNED, v, w),
        CborItem::Negative(w, v) => head_with(MAJOR_NEGATIVE, v, w),
        CborItem::Bytes(w, b) => head_with(MAJOR_BYTES, b.len() as u64, w) + b,
        CborItem::Text(w, b) => head_with(MAJOR_TEXT, b.len() as u64, w) + b,
        CborItem::Array(w, s) => head_with(MAJOR_ARRAY, s.len() as u64, w) + enc_items(s),
        CborItem::MapEntries(w, s) => head_with(MAJOR_MAP, (s.len() / 2) as u64, w) + enc_items(s),
        CborItem::Tag(w, t, inner) => head_with(MAJOR_TAG, t, w) + enc_item(*inner),
        CborItem::Simple(w, v) => head_with(MAJOR_SIMPLE, v as u64, w),
    }
}

/// The encodings of the items, one after the other.
pub open spec fn enc_items(s: Seq<CborItem>) -> Seq<u8>
    decreases s,
{
    if s.len() == 0 {
        Seq::empty()
    } else {
        enc_item(s[0]) + enc_items(s.subrange(1, s.len() as int))
    }
}

/// An item the skipper accepts at the given nesting depth: every head's
/// argument fits its width, nested at most `MAX_SKIP_DEPTH` levels, strings
/// within the value limit, maps of at most `MAX_MAP_ENTRIES` pairs, and of
/// the simple values only false, true, null and undefined.
pub open spec fn item_ok(i: CborItem, depth: nat) -> bool
    decreases i,
{
    depth <= MAX_SKIP_DEPTH && match i {
        CborItem::Unsigned(w, v) => head_fits(v, w),
        CborItem::Negative(w, v) => head_fits(v, w),
        CborItem::Bytes(w, b) => b.len() <= MAX_VALUE_BYTES && head_fits(b.len() as u64, w),
        CborItem::Text(w, b) => b.len() <= MAX_VALUE_BYTES && head_fits(b.len() as u64, w),
        CborItem::Array(w, s) => s.len() <= u64::MAX && head_fits(s.len() as u64, w) && forall|k: int|
            0 <= k < s.len() ==> item_ok(#[trigger] s[k], depth + 1),
        CborItem::MapEntries(w, s) => s.len() % 2 == 0 && s.len() / 2 <= MAX_MAP_ENTRIES
            && head_fits((s.len() / 2) as u64, w) && forall|k: int|
            0 <= k < s.len() ==> item_ok(#[trigger] s[k], depth + 1),
        CborItem::Tag(w, t, inner) => head_fits(t, w) && item_ok(*inner, depth + 1),
        CborItem::Simple(w, v) => 20 <= v <= 23 && head_fits(v as u64, w),
    }
}

/// A head with no content after it: an integer or one of the accepted
/// simple values.
proof fn lemma_skip_leaf(major: u8, value: u64, w: u8, depth: nat, rest: Seq<u8>)
    requires
        depth <= MAX_SKIP_DEPTH,
        head_fits(value, w),
        major == MAJOR_UNSIGNED || major == MAJOR_NEGATIVE || (major == MAJOR_SIMPLE && 20 <= value
            <= 23),
    ensures
        spec_skip(head_with(major, value, w) + rest, depth) == Ok::<int, WireError>(head_with(major, value, w).len() as int),
{
    lemma_read_head_with(major, value, w, rest);
}

/// A byte or text string within the value limit.
proof fn lemma_skip_string(major: u8, b: Seq<u8>, w: u8, depth: nat, rest: Seq<u8>)
    requires
        depth <= MAX_SKIP_DEPTH,
        head_fits(b.len() as u64, w),
        major == MAJOR_BYTES || major == MAJOR_TEXT,
        b.len() <= MAX_VALUE_BYTES,
    ensures
        spec_skip(head_with(major, b.len() as u64, w) + b + rest, depth) == Ok::<int, WireError>(
            (head_with(major, b.len() as u64, w) + b).len() as int,
        ),
{
    let h = head_with(major, b.len() as u64, w);
    let s = h + b + rest;
    lemma_read_head_with(major, b.len() as u64, w, b + rest);
    assert(s =~= h + (b + rest));
    assert(s.skip(h.len() as int) =~= b + rest);
}

/// An array head followed by its items: the skip takes the head and what
/// the items take.
proof fn lemma_skip_array(value: u64, w: u8, body: Seq<u8>, depth: nat, rest: Seq<u8>)
    requires
        depth <= MAX_SKIP_DEPTH,
        head_fits(value, w),
        spec_skip_n(body + rest, depth + 1, value as nat) == Ok::<int, WireError>(body.len() as int),
    ensures
        spec_skip(head_with(MAJOR_ARRAY, value, w) + body + rest, depth) == Ok::<int, WireError>(
            (head_with(MAJOR_ARRAY, value, w) + body).len() as int,
        ),
{
    let h = head_with(MAJOR_ARRAY, value, w);
    let s = h + body + rest;
    lemma_read_head_with(MAJOR_ARRAY, value, w, body + rest);
    assert(s =~= h + (body + rest));
    assert(s.skip(h.len() as int) =~= body + rest);
}

/// A map head followed by its keys and values.
proof fn lemma_skip_map(value: u64, w: u8, body: Seq<u8>, depth: nat, rest: Seq<u8>)
    requires
        depth <= MAX_SKIP_DEPTH,
        head_fits(value, w),
        value <= MAX_MAP_ENTRIES,
        spec_skip_n(body + rest, depth + 1, 2 * value as nat) == Ok::<int, WireError>(
            body.len() as int,
        ),
    ensures
        spec_skip(head_with(MAJOR_MAP, value, w) + body + rest, depth) == Ok::<int, WireError>(
            (head_with(MAJOR_MAP, value, w) + body).len() as int,
        ),
{
    let h = head_with(MAJOR_MAP, value, w);
    let s = h + body + rest;
    lemma_read_head_with(MAJOR_MAP, value, w, body + rest);
    assert(s =~= h + (body + rest));
    assert(s.skip(h.len() as int) =~= body + rest);
}

/// A tag followed by the item it tags.
proof fn lemma_skip_tag(value: u64, w: u8, body: Seq<u8>, depth: nat, rest: Seq<u8>)
    requires
        depth <= MAX_SKIP_DEPTH,
        head_fits(value, w),
        spec_skip(body + rest, depth + 1) == Ok::<int, WireError>(body.len() as int),
    ensures
        spec_skip(head_with(MAJOR_TAG, value, w) + body + rest, depth) == Ok::<int, WireError>(
            (head_with(MAJOR_TAG, value, w) + body).len() as int,
        ),
{
    let h = head_with(MAJOR_TAG, value, w);
    let s = h + body + rest;
    lemma_read_head_with(MAJOR_TAG, value, w, body + rest);
    assert(s =~= h + (body + rest));
    assert(s.skip(h.len() as int) =~= body + rest);
}

/// Skipping reads exactly one encoded item, whatever follows it and
/// whatever head widths it was written with: the skip takes the item's
/// length in bytes.
pub proof fn lemma_skip_item(i: CborItem, depth: nat, rest: Seq<u8>)
    requires
        item_ok(i, depth),
    ensures
        spec_skip(enc_item(i) + rest, depth) == Ok::<int, WireError>(enc_item(i).len() as int),
    decreases i,
{
    match i {
        CborItem::Unsigned(w, v) => lemma_skip_leaf(MAJOR_UNSIGNED, v, w, depth, rest),
        CborItem::Negative(w, v) => lemma_skip_leaf(MAJOR_NEGATIVE, v, w, depth, rest),
        CborItem::Bytes(w, b) => lemma_skip_string(MAJOR_BYTES, b, w, depth, rest),
        CborItem::Text(w, b) => lemma_skip_string(MAJOR_TEXT, b, w, depth, rest),
        CborItem::Array(w, items) => {
            lemma_skip_items(items, depth + 1, rest);
            lemma_skip_array(items.len() as u64, w, enc_items(items), depth, rest);
        },
        CborItem::MapEntries(w, items) => {
            let pairs = (items.len() / 2) as u64;
            assert(2 * pairs as nat == items.len());
            lemma_skip_items(items, depth + 1, rest);
            lemma_skip_map(pairs, w, enc_items(items), depth, rest);
        },
        CborItem::Tag(w, t, inner) => {
            lemma_skip_item(*inner, depth + 1, rest);
            lemma_skip_tag(t, w, enc_item(*inner), depth, rest);
        },
        CborItem::Simple(w, v) => lemma_skip_leaf(MAJOR_SIMPLE, v as u64, w, depth, rest),
    }
}

/// Skipping as many items as were written reads exactly their encodings.
pub proof fn lemma_skip_items(items: Seq<CborItem>, depth: nat, rest: Seq<u8>)
    requires
        forall|k: int| 0 <= k < items.len() ==> item_ok(#[trigger] items[k], depth),
    ensures
        spec_skip_n(enc_items(items) + rest, depth, items.len()) == Ok::<int, WireError>(
            enc_items(items).len() as int,
        ),
    decreases items,
{
    if items.len() > 0 {
        let first = items[0];
        let tail = items.subrange(1, items.len() as int);
        let e = enc_item(first);
        let s2 = enc_items(tail) + rest;
        assert(item_ok(first, depth));
        lemma_skip_item(first, depth, s2);
        assert(enc_items(items) + rest =~= e + s2);
        assert((e + s2).skip(e.len() as int) =~= s2);
        assert forall|k: int| 0 <= k < tail.len() implies item_ok(#[trigger] tail[k], depth) by {
            assert(tail[k] == items[k + 1]);
        }
        lemma_skip_items(tail, depth, rest);
    }
}

} // verus!
