//! Link frames: a ten-byte header (magic `MP`, protocol version, frame type,
//! flags, big-endian payload length) followed by the payload.
use vstd::prelude::*;
use crate::error::WireError;
use crate::bundle::{PROTOCOL_MAJOR, PROTOCOL_MINOR};
use crate::cbor::{be_bytes4, be_value4, push_all};

verus! {

pub const FRAME_MAGIC: u16 = 0x4D50;
pub const FRAME_HEADER_LEN: usize = 10;
pub const MAX_FRAME_PAYLOAD: usize = 131072;
pub const FLAG_ENCRYPTED: u8 = 0x01;

#[derive(Clone, Copy, Debug, PartialEq, Eq, Structural)]
pub enum FrameType {
    Hello,
    KeyInit,
    KeyReply,
    SessionOk,
    InventorySummary,
    InventoryRequest,
    BundleOffer,
    BundleRequest,
    BundleData,
    BundleComplete,
    ErrorFrame,
}

impl FrameType {
    pub open spec fn spec_code(self) -> u8 {
        match self {
            FrameType::Hello => 0x01,
            FrameType::KeyInit => 0x02,
            FrameType::KeyReply => 0x03,
            FrameType::SessionOk => 0x04,
            FrameType::InventorySummary => 0x10,
            FrameType::InventoryRequest => 0x11,
            FrameType::BundleOffer => 0x20,
            FrameType::BundleRequest => 0x21,
            FrameType::BundleData => 0x22,
            FrameType::BundleComplete => 0x23,
            FrameType::ErrorFrame => 0x7F,
        }
    }

    /// The frame type's wire code.
    #[verifier::when_used_as_spec(spec_code)]
    pub fn code(self) -> (c: u8)
        ensures
            c == self.spec_code(),
    {
        match self {
            FrameType::Hello => 0x01,
            FrameType::KeyInit => 0x02,
            FrameType::KeyReply => 0x03,
            FrameType::SessionOk => 0x04,
            FrameType::InventorySummary => 0x10,
            FrameType::InventoryRequest => 0x11,
            FrameType::BundleOffer => 0x20,
            FrameType::BundleRequest => 0x21,
            FrameType::BundleData => 0x22,
            FrameType::BundleComplete => 0x23,
            FrameType::ErrorFrame => 0x7F,
        }
    }

    /// The frame type with the given code; any other code is `UnknownFrameType`.
    pub fn from_code(value: u8) -> (res: Result<FrameType, WireError>)
        ensures
            match frame_type_of_code(value) {
                Some(t) => res == Ok::<FrameType, WireError>(t),
                None => res == Err::<FrameType, WireError>(WireError::UnknownFrameType(value)),
            },
    {
        match value {
            0x01 => Ok(FrameType::Hello),
            0x02 => Ok(FrameType::KeyInit),
            0x03 => Ok(FrameType::KeyReply),
            0x04 => Ok(FrameType::SessionOk),
            0x10 => Ok(FrameType::InventorySummary),
            0x11 => Ok(FrameType::InventoryRequest),
            0x20 => Ok(FrameType::BundleOffer),
            0x21 => Ok(FrameType::BundleRequest),
            0x22 => Ok(FrameType::BundleData),
            0x23 => Ok(FrameType::BundleComplete),
            0x7F => Ok(FrameType::ErrorFrame),
            other => Err(WireError::UnknownFrameType(other)),
        }
    }
}

/// The frame type with the given wire code, if any.
pub open spec fn frame_type_of_code(value: u8) -> Option<FrameType> {
    if value == 0x01 {
        Some(FrameType::Hello)
    } else if value == 0x02 {
        Some(FrameType::KeyInit)
    } else if value == 0x03 {
        Some(FrameType::KeyReply)
    } else if value == 0x04 {
        Some(FrameType::SessionOk)
    } else if value == 0x10 {
        Some(FrameType::InventorySummary)
    } else if value == 0x11 {
        Some(FrameType::InventoryRequest)
    } else if value == 0x20 {
        Some(FrameType::BundleOffer)
    } else if value == 0x21 {
        Some(FrameType::BundleRequest)
    } else if value == 0x22 {
        Some(FrameType::BundleData)
    } else if value == 0x23 {
        Some(FrameType::BundleComplete)
    } else if value == 0x7F {
        Some(FrameType::ErrorFrame)
    } else {
        None
    }
}

#[derive(Clone, Debug, PartialEq, Eq)]
pub struct Frame {
    pub major: u8,
    pub minor: u8,
    pub ty: FrameType,
    pub flags: u8,
    pub payload: Vec<u8>,
}

/// A frame as plain values.
pub struct FrameView {
    pub major: u8,
    pub minor: u8,
    pub ty: FrameType,
    pub flags: u8,
    pub payload: Seq<u8>,
}

impl View for Frame {
    type V = FrameView;

    open spec fn view(&self) -> FrameView {
        FrameView {
            major: self.major,
            minor: self.minor,
            ty: self.ty,
            flags: self.flags,
            payload: self.payload@,
        }
    }
}

/// The wire form of a frame.
pub open spec fn spec_encode_frame(f: FrameView) -> Seq<u8> {
    seq![0x4Du8, 0x50u8, f.major, f.minor, f.ty.spec_code(), f.flags] + be_bytes4(f.payload.len() as int)
        + f.payload
}

/// What `Frame::decode` gives for the bytes, checked in this order.
pub open spec fn spec_decode_frame(s: Seq<u8>) -> Result<FrameView, WireError> {
    if s.len() < FRAME_HEADER_LEN {
        Err(WireError::TruncatedFrame)
    } else if s[0] != 0x4D || s[1] != 0x50 {
        Err(WireError::InvalidMagic)
    } else if s[2] != PROTOCOL_MAJOR {
        Err(WireError::UnsupportedMajorVersion(s[2]))
    } else if be_value4(s.subrange(6, 10)) > MAX_FRAME_PAYLOAD {
        Err(WireError::FrameTooLarge)
    } else if s.len() != FRAME_HEADER_LEN + be_value4(s.subrange(6, 10)) {
        Err(WireError::TruncatedFrame)
    } else if frame_type_of_code(s[4]) is None {
        Err(WireError::UnknownFrameType(s[4]))
    } else {
        Ok(
            FrameView {
                major: s[2],
                minor: s[3],
                ty: frame_type_of_code(s[4])->0,
                flags: s[5],
                payload: s.skip(FRAME_HEADER_LEN as int),
            },
        )
    }
}

impl Frame {
    pub fn cleartext(ty: FrameType, payload: Vec<u8>) -> (f: Self)
        ensures
            f.major == PROTOCOL_MAJOR,
            f.minor == PROTOCOL_MINOR,
            f.ty == ty,
            f.flags == 0,
            f.payload@ == payload@,
    {
        Frame { major: PROTOCOL_MAJOR, minor: PROTOCOL_MINOR, ty, flags: 0, payload }
    }

    pub fn encrypted(ty: FrameType, payload: Vec<u8>) -> (f: Self)
        ensures
            f.major == PROTOCOL_MAJOR,
            f.minor == PROTOCOL_MINOR,
            f.ty == ty,
            f.flags == FLAG_ENCRYPTED,
            f.payload@ == payload@,
    {
        Frame { major: PROTOCOL_MAJOR, minor: PROTOCOL_MINOR, ty, flags: FLAG_ENCRYPTED, payload }
    }

    /// Whether the encrypted flag (bit 0) is set.
    pub fn is_encrypted(&self) -> (r: bool)
        ensures
            r == (self.flags % 2 == 1),
    {
        let flags = self.flags;
        assert(flags & 1 == flags % 2) by (bit_vector);
        flags & FLAG_ENCRYPTED != 0
    }

    pub fn encode(&self) -> (res: Result<Vec<u8>, WireError>)
        ensures
            self.payload@.len() > MAX_FRAME_PAYLOAD ==> res == Err::<Vec<u8>, WireError>(
                WireError::FrameTooLarge,
            ),
            self.payload@.len() <= MAX_FRAME_PAYLOAD ==> (res matches Ok(v) && v@ == spec_encode_frame(
                self@,
            )),
    {
        if self.payload.len() > MAX_FRAME_PAYLOAD {
            return Err(WireError::FrameTooLarge);
        }
        let len = self.payload.len() as u32;
        let mut out: Vec<u8> = Vec::new();
        out.push(0x4D);
        out.push(0x50);
        out.push(self.major);
        out.push(self.minor);
        out.push(self.ty.code());
        out.push(self.flags);
        out.push((len / 0x1000000 % 0x100) as u8);
        out.push((len / 0x10000 % 0x100) as u8);
        out.push((len / 0x100 % 0x100) as u8);
        out.push((len % 0x100) as u8);
        push_all(&mut out, self.payload.as_slice());
        assert(out@ =~= spec_encode_frame(self@));
        Ok(out)
    }

    pub fn decode(bytes: &[u8]) -> (res: Result<Frame, WireError>)
        ensures
            match spec_decode_frame(bytes@) {
                Ok(v) => res matches Ok(f) && f@ == v,
                Err(e) => res == Err::<Frame, WireError>(e),
            },
    {
        if bytes.len() < FRAME_HEADER_LEN {
            return Err(WireError::TruncatedFrame);
        }
        if bytes[0] != 0x4D || bytes[1] != 0x50 {
            return Err(WireError::InvalidMagic);
        }
        if bytes[2] != PROTOCOL_MAJOR {
            return Err(WireError::UnsupportedMajorVersion(bytes[2]));
        }
        let len: u64 = (bytes[6] as u64) * 0x1000000 + (bytes[7] as u64) * 0x10000 + (bytes[8] as u64)
            * 0x100 + (bytes[9] as u64);
        assert(len == be_value4(bytes@.subrange(6, 10)));
        if len > MAX_FRAME_PAYLOAD as u64 {
            return Err(WireError::FrameTooLarge);
        }
        if bytes.len() as u64 != FRAME_HEADER_LEN as u64 + len {
            return Err(WireError::TruncatedFrame);
        }
        let ty = FrameType::from_code(bytes[4])?;
        let payload = vstd::slice::slice_to_vec(vstd::slice::slice_subrange(bytes, FRAME_HEADER_LEN, bytes.len()));
        assert(payload@ =~= bytes@.skip(FRAME_HEADER_LEN as int));
        Ok(Frame { major: bytes[2], minor: bytes[3], ty, flags: bytes[5], payload })
    }
}

proof fn lemma_frame_type_code(t: FrameType)
    ensures
        frame_type_of_code(t.spec_code()) == Some(t),
{
}

/// Decoding an encoded frame gives it back, for every frame of the
/// supported major version whose payload fits.
pub proof fn lemma_frame_round_trip(f: FrameView)
    requires
        f.major == PROTOCOL_MAJOR,
        f.payload.len() <= MAX_FRAME_PAYLOAD,
    ensures
        spec_decode_frame(spec_encode_frame(f)) == Ok::<FrameView, WireError>(f),
{
    let s = spec_encode_frame(f);
    let n = f.payload.len() as int;
    assert(s.subrange(6, 10) =~= be_bytes4(n));
    assert(be_value4(be_bytes4(n)) == n);
    lemma_frame_type_code(f.ty);
    assert(s.skip(FRAME_HEADER_LEN as int) =~= f.payload);
}

} // verus!
