//! Link-session key agreement: ephemeral X25519 keys, a handshake
//! transcript, directional keys derived with HKDF-SHA256, and per-frame
//! ChaCha20-Poly1305 with a counter nonce.
use vstd::prelude::*;
use crate::cbor::{be_bytes8, push_all};
use crate::crypto::message::{message_kdf_salt, message_kdf_salt_bytes};
use crate::crypto::primitives::{
    CryptoError, x25519, x25519_public_key, x25519_public_from_secret, x25519_shared, hkdf_sha256,
    hkdf_sha256_32, chacha20poly1305_seal, chacha20poly1305_open, chacha20poly1305_encrypt,
    chacha20poly1305_decrypt, os_random_32,
};

verus! {

/// `MeshProtocol-1.0`, as for direct messages.
pub open spec fn session_kdf_salt() -> Seq<u8> {
    message_kdf_salt()
}

/// `session-key-lo-hi-v1`
pub open spec fn session_kdf_info_lo_hi() -> Seq<u8> {
    seq![115u8, 101, 115, 115, 105, 111, 110, 45, 107, 101, 121, 45, 108, 111, 45, 104, 105, 45, 118, 49]
}

/// `session-key-hi-lo-v1`
pub open spec fn session_kdf_info_hi_lo() -> Seq<u8> {
    seq![115u8, 101, 115, 115, 105, 111, 110, 45, 107, 101, 121, 45, 104, 105, 45, 108, 111, 45, 118, 49]
}

pub fn session_kdf_info_lo_hi_bytes() -> (s: Vec<u8>)
    ensures
        s@ == session_kdf_info_lo_hi(),
{
    let s = vec![115u8, 101, 115, 115, 105, 111, 110, 45, 107, 101, 121, 45, 108, 111, 45, 104, 105, 45, 118, 49];
    assert(s@ =~= session_kdf_info_lo_hi());
    s
}

pub fn session_kdf_info_hi_lo_bytes() -> (s: Vec<u8>)
    ensures
        s@ == session_kdf_info_hi_lo(),
{
    let s = vec![115u8, 101, 115, 115, 105, 111, 110, 45, 107, 101, 121, 45, 104, 105, 45, 108, 111, 45, 118, 49];
    assert(s@ =~= session_kdf_info_hi_lo());
    s
}

/// An ephemeral X25519 secret for one link session.
pub struct EphemeralSecret {
    secret: [u8; 32],
}

impl EphemeralSecret {
    /// The secret scalar's bytes.
    pub closed spec fn seed(self) -> Seq<u8> {
        self.secret@
    }

    /// A fresh secret from the operating system's random source.
    pub fn generate() -> (e: Self)
        ensures
            e.seed().len() == 32,
    {
        EphemeralSecret { secret: os_random_32() }
    }

    /// The secret with the given bytes.
    pub fn from_seed(seed: [u8; 32]) -> (e: Self)
        ensures
            e.seed() == seed@,
    {
        EphemeralSecret { secret: seed }
    }

    /// The public key to send to the peer.
    pub fn public_bytes(&self) -> (p: [u8; 32])
        ensures
            p@ == x25519_public_key(self.seed()),
    {
        x25519_public_from_secret(&self.secret)
    }

    /// The shared secret with the peer's ephemeral public key. Both ends of
    /// an exchange compute the same value.
    pub fn shared_secret(&self, remote_public: &[u8; 32]) -> (s: [u8; 32])
        ensures
            s@ == x25519(self.seed(), remote_public@),
            forall|other: EphemeralSecret|
                other.seed().len() == 32 && remote_public@ == #[trigger] x25519_public_key(other.seed())
                    ==> s@ == x25519(other.seed(), x25519_public_key(self.seed())),
    {
        let s = x25519_shared(&self.secret, remote_public);
        proof {
            assert forall|other: EphemeralSecret|
                other.seed().len() == 32 && remote_public@ == #[trigger] x25519_public_key(other.seed())
                implies s@ == x25519(other.seed(), x25519_public_key(self.seed())) by {
                assert(remote_public@ == x25519_public_key(other.seed()));
            }
        }
        s
    }
}

/// The directional keys of a session: `tx` seals what this side sends,
/// `rx` opens what it receives.
#[derive(Clone)]
pub struct SessionKeys {
    pub tx: [u8; 32],
    pub rx: [u8; 32],
}

/// The handshake transcript: both HELLO payloads, then both ephemeral keys,
/// the lower peer's first.
pub open spec fn spec_handshake_transcript(hello_lo: Seq<u8>, hello_hi: Seq<u8>, eph_lo: Seq<u8>, eph_hi: Seq<u8>) -> Seq<u8> {
    hello_lo + hello_hi + eph_lo + eph_hi
}

pub fn handshake_transcript(hello_lo: &[u8], hello_hi: &[u8], eph_lo: &[u8; 32], eph_hi: &[u8; 32]) -> (t: Vec<u8>)
    ensures
        t@ == spec_handshake_transcript(hello_lo@, hello_hi@, eph_lo@, eph_hi@),
{
    let mut transcript: Vec<u8> = Vec::new();
    push_all(&mut transcript, hello_lo);
    push_all(&mut transcript, hello_hi);
    push_all(&mut transcript, eph_lo.as_slice());
    push_all(&mut transcript, eph_hi.as_slice());
    transcript
}

/// One directional key: HKDF-SHA256 of the shared secret, with the
/// direction's label followed by the transcript as info.
pub open spec fn spec_session_key(shared: Seq<u8>, info_prefix: Seq<u8>, transcript: Seq<u8>) -> Seq<u8> {
    hkdf_sha256(session_kdf_salt(), shared, info_prefix + transcript)
}

/// The (tx, rx) keys of the side that is, or is not, the lower peer.
pub open spec fn spec_session_keys(shared: Seq<u8>, transcript: Seq<u8>, local_is_lo: bool) -> (Seq<u8>, Seq<u8>) {
    let lo_hi = spec_session_key(shared, session_kdf_info_lo_hi(), transcript);
    let hi_lo = spec_session_key(shared, session_kdf_info_hi_lo(), transcript);
    if local_is_lo {
        (lo_hi, hi_lo)
    } else {
        (hi_lo, lo_hi)
    }
}

fn expand_session_key(shared_secret: &[u8; 32], info_prefix: &[u8], transcript: &[u8]) -> (res: Result<[u8; 32], CryptoError>)
    ensures
        res matches Ok(k) && k@ == spec_session_key(shared_secret@, info_prefix@, transcript@),
{
    let salt = message_kdf_salt_bytes();
    let mut info: Vec<u8> = Vec::new();
    push_all(&mut info, info_prefix);
    push_all(&mut info, transcript);
    match hkdf_sha256_32(salt.as_slice(), shared_secret.as_slice(), info.as_slice()) {
        Some(k) => Ok(k),
        None => Err(CryptoError::KeyDerivation),
    }
}

/// Derives this side's directional keys; it never fails.
pub fn derive_session_keys(shared_secret: &[u8; 32], transcript: &[u8], local_is_lo: bool) -> (res: Result<SessionKeys, CryptoError>)
    ensures
        res matches Ok(k) && (k.tx@, k.rx@) == spec_session_keys(shared_secret@, transcript@, local_is_lo),
{
    let lo_hi_info = session_kdf_info_lo_hi_bytes();
    let hi_lo_info = session_kdf_info_hi_lo_bytes();
    let lo_hi = expand_session_key(shared_secret, lo_hi_info.as_slice(), transcript)?;
    let hi_lo = expand_session_key(shared_secret, hi_lo_info.as_slice(), transcript)?;
    if local_is_lo {
        Ok(SessionKeys { tx: lo_hi, rx: hi_lo })
    } else {
        Ok(SessionKeys { tx: hi_lo, rx: lo_hi })
    }
}

/// The two ends of a session, one the lower peer and one not, deriving
/// from the same shared secret and transcript, get mirrored keys: what one
/// sends with, the other receives with.
pub proof fn lemma_session_keys_mirror(shared: Seq<u8>, transcript: Seq<u8>)
    ensures
        spec_session_keys(shared, transcript, true).0 == spec_session_keys(shared, transcript, false).1,
        spec_session_keys(shared, transcript, true).1 == spec_session_keys(shared, transcript, false).0,
{
}

/// The nonce of a frame: four zero bytes, then the counter big-endian.
pub open spec fn spec_session_nonce(counter: u64) -> Seq<u8> {
    seq![0u8, 0, 0, 0] + be_bytes8(counter as int)
}

pub fn session_nonce(counter: u64) -> (nonce: [u8; 12])
    ensures
        nonce@ == spec_session_nonce(counter),
{
    let nonce: [u8; 12] = [
        0,
        0,
        0,
        0,
        (counter / 0x100000000000000 % 0x100) as u8,
        (counter / 0x1000000000000 % 0x100) as u8,
        (counter / 0x10000000000 % 0x100) as u8,
        (counter / 0x100000000 % 0x100) as u8,
        (counter / 0x1000000 % 0x100) as u8,
        (counter / 0x10000 % 0x100) as u8,
        (counter / 0x100 % 0x100) as u8,
        (counter % 0x100) as u8,
    ];
    assert(nonce@ =~= spec_session_nonce(counter));
    nonce
}

/// What opening a frame gives: the plaintext if it authenticates under the
/// key, the counter's nonce and the associated data.
pub open spec fn spec_open_session(key: Seq<u8>, counter: u64, aad: Seq<u8>, ciphertext: Seq<u8>) -> Option<Seq<u8>> {
    chacha20poly1305_open(key, spec_session_nonce(counter), aad, ciphertext)
}

/// Seals one frame; fails (`EncryptionFailed`) only beyond the cipher's
/// message limit. The frame opens, with the same key, counter and
/// associated data, to the plaintext.
pub fn seal_session(key: &[u8; 32], counter: u64, aad: &[u8], plaintext: &[u8]) -> (res: Result<Vec<u8>, CryptoError>)
    ensures
        plaintext@.len() / 64 < u32::MAX ==> (res matches Ok(c) && c@ == chacha20poly1305_seal(
            key@,
            spec_session_nonce(counter),
            aad@,
            plaintext@,
        ) && c@.len() == plaintext@.len() + 16),
        plaintext@.len() / 64 >= u32::MAX ==> res == Err::<Vec<u8>, CryptoError>(CryptoError::EncryptionFailed),
        res matches Ok(c) ==> spec_open_session(key@, counter, aad@, c@) == Some(plaintext@),
{
    let nonce = session_nonce(counter);
    match chacha20poly1305_encrypt(key, &nonce, aad, plaintext) {
        Some(c) => Ok(c),
        None => Err(CryptoError::EncryptionFailed),
    }
}

/// Opens one frame; one that does not authenticate is `DecryptionFailed`.
pub fn open_session(key: &[u8; 32], counter: u64, aad: &[u8], ciphertext: &[u8]) -> (res: Result<Vec<u8>, CryptoError>)
    ensures
        match spec_open_session(key@, counter, aad@, ciphertext@) {
            Some(p) => res matches Ok(v) && v@ == p,
            None => res == Err::<Vec<u8>, CryptoError>(CryptoError::DecryptionFailed),
        },
{
    let nonce = session_nonce(counter);
    match chacha20poly1305_decrypt(key, &nonce, aad, ciphertext) {
        Some(p) => Ok(p),
        None => Err(CryptoError::DecryptionFailed),
    }
}

} // verus!
