//! The cryptographic primitives, each a call into its crate. What each
//! returns is a function of its arguments alone and is named here; the
//! contracts state only what the crates' sources and documentation show.
use vstd::prelude::*;

verus! {

/// Errors of the cryptographic layer.
#[derive(Clone, Copy, Debug, PartialEq, Eq, Structural)]
pub enum CryptoError {
    InvalidPublicKey,
    InvalidSignature,
    EncryptionFailed,
    DecryptionFailed,
    KeyDerivation,
}

// ---------------------------------------------------------------------------
// SHA-256
// ---------------------------------------------------------------------------

/// The SHA-256 digest of `data`.
pub uninterp spec fn sha256(data: Seq<u8>) -> Seq<u8>;

/// `sha2::Sha256::digest`: the 32-byte SHA-256 digest of the data.
#[verifier::external_body]
pub(crate) fn sha256_digest(data: &[u8]) -> (d: [u8; 32])
    ensures
        d@ == sha256(data@),
{
    <sha2::Sha256 as sha2::Digest>::digest(data).into()
}

// ---------------------------------------------------------------------------
// Ed25519
// ---------------------------------------------------------------------------

/// The Ed25519 public key of a 32-byte secret seed.
pub uninterp spec fn ed25519_public_key(seed: Seq<u8>) -> Seq<u8>;

/// The Ed25519 signature (RFC 8032, deterministic) of `message` by the key
/// with secret seed `seed`.
pub uninterp spec fn ed25519_signature(seed: Seq<u8>, message: Seq<u8>) -> Seq<u8>;

/// Whether 32 bytes are the compressed form of a curve point.
pub uninterp spec fn ed25519_key_valid(public: Seq<u8>) -> bool;

/// Whether `signature` verifies, in strict mode, for `message` under `public`.
pub uninterp spec fn ed25519_verifies(public: Seq<u8>, message: Seq<u8>, signature: Seq<u8>) -> bool;

/// `ed25519_dalek::SigningKey::from_bytes(seed).verifying_key().to_bytes()`:
/// the public key of the seed. Nothing more is claimed of it.
#[verifier::external_body]
pub(crate) fn ed25519_public_from_seed(seed: &[u8; 32]) -> (public: [u8; 32])
    ensures
        public@ == ed25519_public_key(seed@),
{
    ed25519_dalek::SigningKey::from_bytes(seed).verifying_key().to_bytes()
}

/// `ed25519_dalek::SigningKey::sign`: the signature of the message by the
/// seed's key. That it verifies under the seed's public key is not claimed
/// (strict verification refuses weak keys, which some seed could yield).
#[verifier::external_body]
pub(crate) fn ed25519_sign(seed: &[u8; 32], message: &[u8]) -> (signature: [u8; 64])
    ensures
        signature@ == ed25519_signature(seed@, message@),
{
    let key = ed25519_dalek::SigningKey::from_bytes(seed);
    <ed25519_dalek::SigningKey as ed25519_dalek::Signer<ed25519_dalek::Signature>>::sign(
        &key,
        message,
    ).to_bytes()
}

/// `ed25519_dalek::VerifyingKey::from_bytes` succeeds: whether the bytes are
/// a valid public key.
#[verifier::external_body]
pub(crate) fn ed25519_public_key_valid(public: &[u8; 32]) -> (valid: bool)
    ensures
        valid == ed25519_key_valid(public@),
{
    ed25519_dalek::VerifyingKey::from_bytes(public).is_ok()
}

/// `ed25519_dalek::VerifyingKey::verify_strict` succeeds, for a valid key.
#[verifier::external_body]
pub(crate) fn ed25519_verify_strict(public: &[u8; 32], message: &[u8], signature: &[u8; 64]) -> (ok: bool)
    requires
        ed25519_key_valid(public@),
    ensures
        ok == ed25519_verifies(public@, message@, signature@),
{
    match ed25519_dalek::VerifyingKey::from_bytes(public) {
        Ok(key) => key.verify_strict(message, &ed25519_dalek::Signature::from_bytes(signature)).is_ok(),
        Err(_) => false,
    }
}

// ---------------------------------------------------------------------------
// X25519
// ---------------------------------------------------------------------------

/// The X25519 public key of a 32-byte secret.
pub uninterp spec fn x25519_public_key(secret: Seq<u8>) -> Seq<u8>;

/// The X25519 shared secret of `secret` with the peer's `public` key.
pub uninterp spec fn x25519(secret: Seq<u8>, public: Seq<u8>) -> Seq<u8>;

/// `x25519_dalek::PublicKey::from(&StaticSecret::from(secret))`: the public key.
#[verifier::external_body]
pub(crate) fn x25519_public_from_secret(secret: &[u8; 32]) -> (public: [u8; 32])
    ensures
        public@ == x25519_public_key(secret@),
{
    x25519_dalek::PublicKey::from(&x25519_dalek::StaticSecret::from(*secret)).to_bytes()
}

/// `x25519_dalek::StaticSecret::diffie_hellman`: the shared secret. As for
/// any Diffie-Hellman exchange, when the peer's public key is that of a
/// secret `other`, the peer computes the same shared secret from `other` and
/// this side's public key (both sides multiply the base point by both
/// clamped scalars).
#[verifier::external_body]
pub(crate) fn x25519_shared(secret: &[u8; 32], public: &[u8; 32]) -> (shared: [u8; 32])
    ensures
        shared@ == x25519(secret@, public@),
        forall|other: Seq<u8>|
            other.len() == 32 && public@ == #[trigger] x25519_public_key(other) ==> shared@ == x25519(
                other,
                x25519_public_key(secret@),
            ),
{
    *x25519_dalek::StaticSecret::from(*secret).diffie_hellman(&x25519_dalek::PublicKey::from(*public)).as_bytes()
}

// ---------------------------------------------------------------------------
// HKDF-SHA256
// ---------------------------------------------------------------------------

/// The first 32 bytes of HKDF-SHA256 output for `salt`, `ikm` and `info`.
pub uninterp spec fn hkdf_sha256(salt: Seq<u8>, ikm: Seq<u8>, info: Seq<u8>) -> Seq<u8>;

/// `hkdf::Hkdf::<Sha256>::new(Some(salt), ikm).expand(info, &mut [0; 32])`:
/// 32 bytes of output key material. The expansion refuses only outputs longer
/// than 255 hash lengths, so for 32 bytes it always succeeds.
#[verifier::external_body]
pub(crate) fn hkdf_sha256_32(salt: &[u8], ikm: &[u8], info: &[u8]) -> (okm: Option<[u8; 32]>)
    ensures
        okm is Some,
        okm matches Some(k) ==> k@ == hkdf_sha256(salt@, ikm@, info@),
{
    let hk = hkdf::Hkdf::<sha2::Sha256>::new(Some(salt), ikm);
    let mut okm = [0u8; 32];
    match hk.expand(info, &mut okm) {
        Ok(()) => Some(okm),
        Err(_) => None,
    }
}

// ---------------------------------------------------------------------------
// ChaCha20-Poly1305 and XChaCha20-Poly1305
// ---------------------------------------------------------------------------

/// ChaCha20-Poly1305 ciphertext (with its 16-byte tag appended).
pub uninterp spec fn chacha20poly1305_seal(key: Seq<u8>, nonce: Seq<u8>, aad: Seq<u8>, plaintext: Seq<u8>) -> Seq<u8>;

/// ChaCha20-Poly1305 decryption: the plaintext if the tag authenticates.
pub uninterp spec fn chacha20poly1305_open(key: Seq<u8>, nonce: Seq<u8>, aad: Seq<u8>, ciphertext: Seq<u8>) -> Option<Seq<u8>>;

/// `chacha20poly1305::ChaCha20Poly1305::encrypt`: refuses only messages of
/// `u32::MAX` 64-byte blocks or more; the ciphertext is the message's length
/// plus the tag, and decrypting it with the same key, nonce and associated
/// data gives the message back. Nothing is claimed of decrypting it under
/// another key, nonce or associated data: that this fails holds of the
/// cipher only with overwhelming probability, not of every input.
#[verifier::external_body]
pub(crate) fn chacha20poly1305_encrypt(key: &[u8; 32], nonce: &[u8; 12], aad: &[u8], plaintext: &[u8]) -> (res: Option<Vec<u8>>)
    ensures
        res is Some <==> plaintext@.len() / 64 < u32::MAX,
        res matches Some(c) ==> c@ == chacha20poly1305_seal(key@, nonce@, aad@, plaintext@)
            && c@.len() == plaintext@.len() + 16
            && chacha20poly1305_open(key@, nonce@, aad@, c@) == Some(plaintext@),
{
    let cipher = <chacha20poly1305::ChaCha20Poly1305 as chacha20poly1305::KeyInit>::new(key.into());
    <chacha20poly1305::ChaCha20Poly1305 as chacha20poly1305::aead::Aead>::encrypt(
        &cipher,
        nonce.into(),
        chacha20poly1305::aead::Payload { msg: plaintext, aad },
    ).ok()
}

/// `chacha20poly1305::ChaCha20Poly1305::decrypt`: the plaintext, exactly
/// when the ciphertext authenticates.
#[verifier::external_body]
pub(crate) fn chacha20poly1305_decrypt(key: &[u8; 32], nonce: &[u8; 12], aad: &[u8], ciphertext: &[u8]) -> (res: Option<Vec<u8>>)
    ensures
        match chacha20poly1305_open(key@, nonce@, aad@, ciphertext@) {
            Some(p) => res matches Some(v) && v@ == p,
            None => res is None,
        },
{
    let cipher = <chacha20poly1305::ChaCha20Poly1305 as chacha20poly1305::KeyInit>::new(key.into());
    <chacha20poly1305::ChaCha20Poly1305 as chacha20poly1305::aead::Aead>::decrypt(
        &cipher,
        nonce.into(),
        chacha20poly1305::aead::Payload { msg: ciphertext, aad },
    ).ok()
}

/// XChaCha20-Poly1305 ciphertext (24-byte nonce, tag appended), no associated data.
pub uninterp spec fn xchacha20poly1305_seal(key: Seq<u8>, nonce: Seq<u8>, plaintext: Seq<u8>) -> Seq<u8>;

/// XChaCha20-Poly1305 decryption, no associated data.
pub uninterp spec fn xchacha20poly1305_open(key: Seq<u8>, nonce: Seq<u8>, ciphertext: Seq<u8>) -> Option<Seq<u8>>;

/// `chacha20poly1305::XChaCha20Poly1305::encrypt`, as for ChaCha20-Poly1305.
#[verifier::external_body]
pub(crate) fn xchacha20poly1305_encrypt(key: &[u8; 32], nonce: &[u8; 24], plaintext: &[u8]) -> (res: Option<Vec<u8>>)
    ensures
        res is Some <==> plaintext@.len() / 64 < u32::MAX,
        res matches Some(c) ==> c@ == xchacha20poly1305_seal(key@, nonce@, plaintext@)
            && c@.len() == plaintext@.len() + 16
            && xchacha20poly1305_open(key@, nonce@, c@) == Some(plaintext@),
{
    let cipher = <chacha20poly1305::XChaCha20Poly1305 as chacha20poly1305::KeyInit>::new(key.into());
    <chacha20poly1305::XChaCha20Poly1305 as chacha20poly1305::aead::Aead>::encrypt(
        &cipher,
        nonce.into(),
        plaintext,
    ).ok()
}

/// `chacha20poly1305::XChaCha20Poly1305::decrypt`: the plaintext, exactly
/// when the ciphertext authenticates.
#[verifier::external_body]
pub(crate) fn xchacha20poly1305_decrypt(key: &[u8; 32], nonce: &[u8; 24], ciphertext: &[u8]) -> (res: Option<Vec<u8>>)
    ensures
        match xchacha20poly1305_open(key@, nonce@, ciphertext@) {
            Some(p) => res matches Some(v) && v@ == p,
            None => res is None,
        },
{
    let cipher = <chacha20poly1305::XChaCha20Poly1305 as chacha20poly1305::KeyInit>::new(key.into());
    <chacha20poly1305::XChaCha20Poly1305 as chacha20poly1305::aead::Aead>::decrypt(
        &cipher,
        nonce.into(),
        ciphertext,
    ).ok()
}

// ---------------------------------------------------------------------------
// Randomness and wiping
// ---------------------------------------------------------------------------

/// `rand_core::OsRng::fill_bytes`: 32 bytes from the operating system's
/// random source. Nothing is claimed of them.
#[verifier::external_body]
pub(crate) fn os_random_32() -> (bytes: [u8; 32]) {
    let mut bytes = [0u8; 32];
    rand_core::RngCore::fill_bytes(&mut rand_core::OsRng, &mut bytes);
    bytes
}

/// `rand_core::OsRng::fill_bytes`: 12 bytes from the operating system's
/// random source. Nothing is claimed of them.
#[verifier::external_body]
pub(crate) fn os_random_12() -> (bytes: [u8; 12]) {
    let mut bytes = [0u8; 12];
    rand_core::RngCore::fill_bytes(&mut rand_core::OsRng, &mut bytes);
    bytes
}

/// `zeroize::Zeroize::zeroize`: overwrites the secret with zeros.
#[verifier::external_body]
pub(crate) fn zeroize_32(secret: &mut [u8; 32])
    ensures
        final(secret)@ == Seq::new(32, |i: int| 0u8),
{
    zeroize::Zeroize::zeroize(secret);
}

} // verus!
