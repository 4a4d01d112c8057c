use vstd::prelude::*;

verus! {

/// Errors of the wire formats: CBOR payloads, bundles and frames.
#[derive(Debug, PartialEq, Eq, Clone, Copy, Structural)]
pub enum WireError {
    UnsupportedMajorVersion(u8),
    PayloadLengthMismatch,
    BundleTooLarge,
    InvalidHopLimit,
    InvalidSignatureLength,
    InvalidIdentifier,
    InvalidBundleType(u64),
    InvalidPriority(u64),
    MissingField(u8),
    DuplicateField(u8),
    TruncatedCbor,
    TrailingCbor,
    IndefiniteCbor,
    UnexpectedCborType,
    IntegerOutOfRange,
    CborLimit,
    InvalidUtf8,
    InvalidSealedPayload,
    InvalidControlPayload,
    UnknownFrameType(u8),
    FrameTooLarge,
    TruncatedFrame,
    InvalidMagic,
}

} // verus!
