//! Messages sealed to a recipient's X25519 key, and local data sealed at rest.
//!
//! The message key is HKDF-SHA256 of the X25519 shared secret between a
//! fresh ephemeral key and the recipient's key (salt `MeshProtocol-1.0`,
//! info `direct-message-key-v1`); the cipher is ChaCha20-Poly1305.
use vstd::prelude::*;
use crate::crypto::identity::Identity;
use crate::crypto::primitives::{
    CryptoError, x25519, x25519_public_key, x25519_public_from_secret, x25519_shared, hkdf_sha256,
    hkdf_sha256_32, chacha20poly1305_seal, chacha20poly1305_open, chacha20poly1305_encrypt,
    chacha20poly1305_decrypt, xchacha20poly1305_seal, xchacha20poly1305_open,
    xchacha20poly1305_encrypt, xchacha20poly1305_decrypt, os_random_32, os_random_12, zeroize_32,
};

verus! {

pub open spec fn message_kdf_salt() -> Seq<u8> {
    seq![77u8, 101, 115, 104, 80, 114, 111, 116, 111, 99, 111, 108, 45, 49, 46, 48]
}

pub open spec fn message_kdf_info() -> Seq<u8> {
    seq![100u8, 105, 114, 101, 99, 116, 45, 109, 101, 115, 115, 97, 103, 101, 45, 107, 101, 121, 45, 118, 49]
}

/// `MeshProtocol-1.0`
pub fn message_kdf_salt_bytes() -> (s: Vec<u8>)
    ensures
        s@ == message_kdf_salt(),
{
    let s = vec![77u8, 101, 115, 104, 80, 114, 111, 116, 111, 99, 111, 108, 45, 49, 46, 48];
    assert(s@ =~= message_kdf_salt());
    s
}

/// `direct-message-key-v1`
pub fn message_kdf_info_bytes() -> (s: Vec<u8>)
    ensures
        s@ == message_kdf_info(),
{
    let s = vec![100u8, 105, 114, 101, 99, 116, 45, 109, 101, 115, 115, 97, 103, 101, 45, 107, 101, 121, 45, 118, 49];
    assert(s@ =~= message_kdf_info());
    s
}

/// The message key for a shared secret.
pub open spec fn spec_message_key(shared: Seq<u8>) -> Seq<u8> {
    hkdf_sha256(message_kdf_salt(), shared, message_kdf_info())
}

#[derive(Clone, Debug, PartialEq, Eq)]
pub struct SealedMessage {
    pub ephemeral_public: [u8; 32],
    pub nonce: [u8; 12],
    pub ciphertext: Vec<u8>,
}

fn derive_message_key(shared_secret: &[u8; 32]) -> (res: Result<[u8; 32], CryptoError>)
    ensures
        res matches Ok(k) && k@ == spec_message_key(shared_secret@),
{
    let salt = message_kdf_salt_bytes();
    let info = message_kdf_info_bytes();
    match hkdf_sha256_32(salt.as_slice(), shared_secret.as_slice(), info.as_slice()) {
        Some(k) => Ok(k),
        None => Err(CryptoError::KeyDerivation),
    }
}

/// What sealing with a given ephemeral secret and nonce produces: the
/// ephemeral public key, the nonce, and the ciphertext under the message
/// key of the shared secret.
pub open spec fn spec_sealed_ciphertext(recipient: Seq<u8>, plaintext: Seq<u8>, ephemeral: Seq<u8>, nonce: Seq<u8>) -> Seq<u8> {
    chacha20poly1305_seal(
        spec_message_key(x25519(ephemeral, recipient)),
        nonce,
        Seq::empty(),
        plaintext,
    )
}

/// Seals `plaintext` to the recipient with the given ephemeral secret and
/// nonce. Fails (`EncryptionFailed`) only for messages beyond the cipher's
/// limit of `u32::MAX` 64-byte blocks.
pub fn seal_message_with(
    recipient_encryption_public: &[u8; 32],
    plaintext: &[u8],
    ephemeral_seed: [u8; 32],
    nonce: [u8; 12],
) -> (res: Result<SealedMessage, CryptoError>)
    ensures
        plaintext@.len() / 64 < u32::MAX ==> (res matches Ok(m) && m.ephemeral_public@ == x25519_public_key(
            ephemeral_seed@,
        ) && m.nonce == nonce && m.ciphertext@ == spec_sealed_ciphertext(
            recipient_encryption_public@,
            plaintext@,
            ephemeral_seed@,
            nonce@,
        )),
        plaintext@.len() / 64 >= u32::MAX ==> res == Err::<SealedMessage, CryptoError>(
            CryptoError::EncryptionFailed,
        ),
        // The holder of the recipient's secret opens the message to the plaintext.
        res matches Ok(m) ==> forall|secret: Seq<u8>|
            secret.len() == 32 && recipient_encryption_public@ == #[trigger] x25519_public_key(secret)
                ==> spec_open_message(secret, m.ephemeral_public@, m.nonce@, m.ciphertext@) == Some(plaintext@),
{
    let ephemeral_public = x25519_public_from_secret(&ephemeral_seed);
    let mut shared = x25519_shared(&ephemeral_seed, recipient_encryption_public);
    let mut key = derive_message_key(&shared)?;
    zeroize_32(&mut shared);
    let no_aad: [u8; 0] = [];
    assert(no_aad@ =~= Seq::<u8>::empty());
    let ciphertext = chacha20poly1305_encrypt(&key, &nonce, &no_aad, plaintext);
    zeroize_32(&mut key);
    match ciphertext {
        Some(ciphertext) => Ok(SealedMessage { ephemeral_public, nonce, ciphertext }),
        None => Err(CryptoError::EncryptionFailed),
    }
}

/// Seals `plaintext` to the recipient with a fresh random ephemeral key and nonce.
pub fn seal_message(recipient_encryption_public: &[u8; 32], plaintext: &[u8]) -> (res: Result<
    SealedMessage,
    CryptoError,
>)
    ensures
        plaintext@.len() / 64 < u32::MAX ==> res is Ok,
        plaintext@.len() / 64 >= u32::MAX ==> res == Err::<SealedMessage, CryptoError>(
            CryptoError::EncryptionFailed,
        ),
        res matches Ok(m) ==> exists|e: Seq<u8>|
            e.len() == 32 && m.ephemeral_public@ == #[trigger] x25519_public_key(e) && m.ciphertext@
                == spec_sealed_ciphertext(recipient_encryption_public@, plaintext@, e, m.nonce@),
{
    let mut ephemeral_seed = os_random_32();
    let nonce = os_random_12();
    let sealed = seal_message_with(recipient_encryption_public, plaintext, ephemeral_seed, nonce);
    let ghost e = ephemeral_seed@;
    zeroize_32(&mut ephemeral_seed);
    proof {
        if let Ok(m) = &sealed {
            assert(m.ephemeral_public@ == x25519_public_key(e));
        }
    }
    sealed
}

/// What opening gives: the plaintext of the ciphertext under the message
/// key of the recipient's secret with the sender's ephemeral key.
pub open spec fn spec_open_message(recipient_secret: Seq<u8>, ephemeral_public: Seq<u8>, nonce: Seq<u8>, ciphertext: Seq<u8>) -> Option<Seq<u8>> {
    chacha20poly1305_open(
        spec_message_key(x25519(recipient_secret, ephemeral_public)),
        nonce,
        Seq::empty(),
        ciphertext,
    )
}

/// Opens a message sealed to `recipient`; a ciphertext that does not
/// authenticate is `DecryptionFailed`.
pub fn open_message(recipient: &Identity, sealed: &SealedMessage) -> (res: Result<Vec<u8>, CryptoError>)
    ensures
        match spec_open_message(recipient.encryption_seed(), sealed.ephemeral_public@, sealed.nonce@, sealed.ciphertext@) {
            Some(p) => res matches Ok(v) && v@ == p,
            None => res == Err::<Vec<u8>, CryptoError>(CryptoError::DecryptionFailed),
        },
{
    let mut shared = x25519_shared(recipient.encryption_secret(), &sealed.ephemeral_public);
    let mut key = derive_message_key(&shared)?;
    zeroize_32(&mut shared);
    let no_aad: [u8; 0] = [];
    assert(no_aad@ =~= Seq::<u8>::empty());
    let plaintext = chacha20poly1305_decrypt(&key, &sealed.nonce, &no_aad, sealed.ciphertext.as_slice());
    zeroize_32(&mut key);
    match plaintext {
        Some(p) => Ok(p),
        None => Err(CryptoError::DecryptionFailed),
    }
}

/// Seals local data at rest under a 256-bit key with XChaCha20-Poly1305.
pub fn seal_local(key: &[u8; 32], nonce: &[u8; 24], plaintext: &[u8]) -> (res: Result<Vec<u8>, CryptoError>)
    ensures
        plaintext@.len() / 64 < u32::MAX ==> (res matches Ok(c) && c@ == xchacha20poly1305_seal(
            key@,
            nonce@,
            plaintext@,
        ) && xchacha20poly1305_open(key@, nonce@, c@) == Some(plaintext@)),
        plaintext@.len() / 64 >= u32::MAX ==> res == Err::<Vec<u8>, CryptoError>(
            CryptoError::EncryptionFailed,
        ),
{
    match xchacha20poly1305_encrypt(key, nonce, plaintext) {
        Some(c) => Ok(c),
        None => Err(CryptoError::EncryptionFailed),
    }
}

/// Opens local data sealed with `seal_local`.
pub fn open_local(key: &[u8; 32], nonce: &[u8; 24], ciphertext: &[u8]) -> (res: Result<Vec<u8>, CryptoError>)
    ensures
        match xchacha20poly1305_open(key@, nonce@, ciphertext@) {
            Some(p) => res matches Ok(v) && v@ == p,
            None => res == Err::<Vec<u8>, CryptoError>(CryptoError::DecryptionFailed),
        },
{
    match xchacha20poly1305_decrypt(key, nonce, ciphertext) {
        Some(p) => Ok(p),
        None => Err(CryptoError::DecryptionFailed),
    }
}

} // verus!
