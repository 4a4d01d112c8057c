//! User identities: an Ed25519 signing key and an X25519 encryption key.
//! A user's identifier is the first 16 bytes of SHA-256 of the signing key.
use vstd::prelude::*;
use crate::types::{ConversationId, UserId, group_id_lemmas};
use crate::crypto::primitives::{
    CryptoError, sha256, sha256_digest, ed25519_public_key, ed25519_signature, ed25519_key_valid,
    ed25519_verifies, ed25519_public_from_seed, ed25519_sign, ed25519_public_key_valid,
    ed25519_verify_strict, x25519_public_key, x25519_public_from_secret, os_random_32,
};
use crate::fields::bytes_to_array16;
use crate::bindings::{push_hex, spec_hex};

verus! {

broadcast use group_id_lemmas;

/// The user identifier of a signing key: SHA-256 of the key, first 16 bytes.
pub open spec fn spec_user_id(signing_public: Seq<u8>) -> Seq<u8> {
    sha256(signing_public).take(16)
}

/// Sixteen identifier bytes as a UUID in text: lower-case hexadecimal in
/// groups of 4, 2, 2, 2 and 6 bytes, joined by hyphens.
pub open spec fn spec_uuid_text(b: Seq<u8>) -> Seq<char> {
    spec_hex(b.subrange(0, 4)) + seq!['-'] + spec_hex(b.subrange(4, 6)) + seq!['-'] + spec_hex(
        b.subrange(6, 8),
    ) + seq!['-'] + spec_hex(b.subrange(8, 10)) + seq!['-'] + spec_hex(b.subrange(10, 16))
}

/// The debug form of an identity with the given user identifier.
pub open spec fn spec_identity_debug(user_id: Seq<u8>) -> Seq<char> {
    seq!['I', 'd', 'e', 'n', 't', 'i', 't', 'y', ' ', '{', ' ', 'u', 's', 'e', 'r', '_', 'i', 'd', ':', ' ', 'U', 's', 'e', 'r', 'I', 'd', '(']
        + spec_uuid_text(user_id) + seq![')', ',', ' ', '.', '.', ' ', '}']
}

/// A key fingerprint: SHA-256 of the signing key followed by the encryption key.
pub open spec fn spec_fingerprint(signing_public: Seq<u8>, encryption_public: Seq<u8>) -> Seq<u8> {
    sha256(signing_public + encryption_public)
}

/// Byte-wise lexicographic order of two sequences of the same length.
pub open spec fn lex_le(a: Seq<u8>, b: Seq<u8>) -> bool
    decreases a.len(),
{
    if a.len() == 0 || b.len() == 0 {
        true
    } else if a[0] != b[0] {
        a[0] < b[0]
    } else {
        lex_le(a.drop_first(), b.drop_first())
    }
}

/// The conversation of two users, whichever way round: SHA-256 of the
/// smaller identifier followed by the larger one, first 16 bytes.
pub open spec fn spec_conversation_id(a: Seq<u8>, b: Seq<u8>) -> Seq<u8> {
    if lex_le(a, b) {
        sha256(a + b).take(16)
    } else {
        sha256(b + a).take(16)
    }
}

pub fn derive_user_id(signing_public_key: &[u8]) -> (id: UserId)
    ensures
        id@ == spec_user_id(signing_public_key@),
{
    let digest = sha256_digest(signing_public_key);
    let id = UserId::from_bytes(bytes_to_array16(vstd::slice::slice_subrange(digest.as_slice(), 0, 16)));
    assert(id@ =~= spec_user_id(signing_public_key@));
    id
}

pub fn fingerprint(signing_public: &[u8; 32], encryption_public: &[u8; 32]) -> (f: [u8; 32])
    ensures
        f@ == spec_fingerprint(signing_public@, encryption_public@),
{
    let mut data: Vec<u8> = Vec::new();
    crate::cbor::push_all(&mut data, signing_public.as_slice());
    crate::cbor::push_all(&mut data, encryption_public.as_slice());
    sha256_digest(data.as_slice())
}

/// Whether `a` comes no later than `b` in byte-wise order.
pub(crate) fn bytes16_le(a: &[u8; 16], b: &[u8; 16]) -> (r: bool)
    ensures
        r == lex_le(a@, b@),
{
    let mut i: usize = 0;
    assert(a@.skip(0) =~= a@);
    assert(b@.skip(0) =~= b@);
    while i < 16
        invariant
            i <= 16,
            a@.len() == 16,
            b@.len() == 16,
            lex_le(a@, b@) == lex_le(a@.skip(i as int), b@.skip(i as int)),
        decreases 16 - i,
    {
        assert(a@.skip(i as int)[0] == a@[i as int]);
        assert(b@.skip(i as int)[0] == b@[i as int]);
        if a[i] != b[i] {
            return a[i] < b[i];
        }
        assert(a@.skip(i as int).drop_first() =~= a@.skip(i + 1));
        assert(b@.skip(i as int).drop_first() =~= b@.skip(i + 1));
        i = i + 1;
    }
    true
}

pub fn conversation_id(a: UserId, b: UserId) -> (c: ConversationId)
    ensures
        c@ == spec_conversation_id(a@, b@),
{
    let (min, max) = if bytes16_le(a.as_bytes(), b.as_bytes()) {
        (a, b)
    } else {
        (b, a)
    };
    let mut data: Vec<u8> = Vec::new();
    crate::cbor::push_all(&mut data, min.as_bytes().as_slice());
    crate::cbor::push_all(&mut data, max.as_bytes().as_slice());
    let digest = sha256_digest(data.as_slice());
    let c = ConversationId::from_bytes(bytes_to_array16(vstd::slice::slice_subrange(digest.as_slice(), 0, 16)));
    assert(c@ =~= spec_conversation_id(a@, b@));
    c
}

/// Byte-wise order is total on sequences of equal length.
pub proof fn lemma_lex_total(a: Seq<u8>, b: Seq<u8>)
    requires
        a.len() == b.len(),
    ensures
        lex_le(a, b) || lex_le(b, a),
        lex_le(a, b) && lex_le(b, a) ==> a == b,
    decreases a.len(),
{
    if a.len() > 0 && a[0] == b[0] {
        lemma_lex_total(a.drop_first(), b.drop_first());
        if lex_le(a, b) && lex_le(b, a) {
            assert(a =~= seq![a[0]] + a.drop_first());
            assert(b =~= seq![b[0]] + b.drop_first());
        }
    } else if a.len() == 0 {
        assert(a =~= b);
    }
}

/// A conversation's identifier does not depend on which participant asks.
pub proof fn lemma_conversation_id_symmetric(a: Seq<u8>, b: Seq<u8>)
    requires
        a.len() == b.len(),
    ensures
        spec_conversation_id(a, b) == spec_conversation_id(b, a),
{
    lemma_lex_total(a, b);
}

/// Checks that `signature` is a strict Ed25519 signature of `message` under
/// `signing_public`: an invalid key is `InvalidPublicKey`, a bad signature
/// `InvalidSignature`.
pub fn verify_signature(signing_public: &[u8; 32], message: &[u8], signature: &[u8; 64]) -> (res: Result<(), CryptoError>)
    ensures
        !ed25519_key_valid(signing_public@) ==> res == Err::<(), CryptoError>(CryptoError::InvalidPublicKey),
        ed25519_key_valid(signing_public@) && ed25519_verifies(signing_public@, message@, signature@)
            ==> res is Ok,
        ed25519_key_valid(signing_public@) && !ed25519_verifies(signing_public@, message@, signature@)
            ==> res == Err::<(), CryptoError>(CryptoError::InvalidSignature),
{
    if !ed25519_public_key_valid(signing_public) {
        return Err(CryptoError::InvalidPublicKey);
    }
    if ed25519_verify_strict(signing_public, message, signature) {
        Ok(())
    } else {
        Err(CryptoError::InvalidSignature)
    }
}

/// A contact's public keys and the user identifier they determine.
#[derive(Clone, Copy, Debug, PartialEq, Eq)]
pub struct PublicIdentity {
    pub user_id: UserId,
    pub signing_public: [u8; 32],
    pub encryption_public: [u8; 32],
}

impl PublicIdentity {
    /// The identity of a contact's keys; the signing key must be a valid
    /// Ed25519 key (else `InvalidPublicKey`).
    pub fn new(signing_public: [u8; 32], encryption_public: [u8; 32]) -> (res: Result<Self, CryptoError>)
        ensures
            ed25519_key_valid(signing_public@) ==> (res matches Ok(p) && p.user_id@ == spec_user_id(
                signing_public@,
            ) && p.signing_public == signing_public && p.encryption_public == encryption_public),
            !ed25519_key_valid(signing_public@) ==> res == Err::<PublicIdentity, CryptoError>(
                CryptoError::InvalidPublicKey,
            ),
    {
        if !ed25519_public_key_valid(&signing_public) {
            return Err(CryptoError::InvalidPublicKey);
        }
        Ok(PublicIdentity {
            user_id: derive_user_id(signing_public.as_slice()),
            signing_public,
            encryption_public,
        })
    }

    pub fn fingerprint(&self) -> (f: [u8; 32])
        ensures
            f@ == spec_fingerprint(self.signing_public@, self.encryption_public@),
    {
        fingerprint(&self.signing_public, &self.encryption_public)
    }
}

/// A user's own identity, holding the secret seeds of both keys.
pub struct Identity {
    user_id: UserId,
    signing_seed: [u8; 32],
    encryption_seed: [u8; 32],
    signing_public: [u8; 32],
    encryption_public: [u8; 32],
}

impl Identity {
    /// The public keys and user identifier are those of the seeds.
    #[verifier::type_invariant]
    pub closed spec fn keys_match(self) -> bool {
        &&& self.signing_public@ == ed25519_public_key(self.signing_seed@)
        &&& self.encryption_public@ == x25519_public_key(self.encryption_seed@)
        &&& self.user_id@ == spec_user_id(self.signing_public@)
    }

    /// The secret seed of the signing key.
    pub closed spec fn signing_seed(self) -> Seq<u8> {
        self.signing_seed@
    }

    /// The secret of the encryption key.
    pub closed spec fn encryption_seed(self) -> Seq<u8> {
        self.encryption_seed@
    }

    pub open spec fn spec_signing_public(self) -> Seq<u8> {
        ed25519_public_key(self.signing_seed())
    }

    pub open spec fn spec_encryption_public(self) -> Seq<u8> {
        x25519_public_key(self.encryption_seed())
    }

    pub open spec fn spec_user_id(self) -> Seq<u8> {
        spec_user_id(self.spec_signing_public())
    }

    /// An identity with fresh random seeds.
    pub fn generate() -> (id: Self)
        ensures
            id.signing_seed().len() == 32,
            id.encryption_seed().len() == 32,
    {
        Self::from_seeds(os_random_32(), os_random_32())
    }

    pub fn from_seeds(signing_seed: [u8; 32], encryption_seed: [u8; 32]) -> (id: Self)
        ensures
            id.signing_seed() == signing_seed@,
            id.encryption_seed() == encryption_seed@,
    {
        let signing_public = ed25519_public_from_seed(&signing_seed);
        let encryption_public = x25519_public_from_secret(&encryption_seed);
        Identity {
            user_id: derive_user_id(signing_public.as_slice()),
            signing_seed,
            encryption_seed,
            signing_public,
            encryption_public,
        }
    }

    /// The identity as its debug form shows it: only the user identifier, as
    /// a hyphenated UUID, never the key material.
    pub fn debug_string(&self) -> (s: String)
        ensures
            s@ == spec_identity_debug(self.spec_user_id()),
    {
        proof {
            use_type_invariant(self);
            reveal_strlit("Identity { user_id: UserId(");
            reveal_strlit("-");
            reveal_strlit("), .. }");
        }
        let bytes = self.user_id.as_bytes();
        let mut s = String::new();
        s.append("Identity { user_id: UserId(");
        push_hex(&mut s, bytes, 0, 4);
        s.append("-");
        push_hex(&mut s, bytes, 4, 6);
        s.append("-");
        push_hex(&mut s, bytes, 6, 8);
        s.append("-");
        push_hex(&mut s, bytes, 8, 10);
        s.append("-");
        push_hex(&mut s, bytes, 10, 16);
        s.append("), .. }");
        s
    }

    pub fn user_id(&self) -> (u: UserId)
        ensures
            u@ == self.spec_user_id(),
    {
        proof { use_type_invariant(self); }
        self.user_id
    }

    pub fn signing_public(&self) -> (k: &[u8; 32])
        ensures
            k@ == self.spec_signing_public(),
    {
        proof { use_type_invariant(self); }
        &self.signing_public
    }

    pub fn encryption_public(&self) -> (k: &[u8; 32])
        ensures
            k@ == self.spec_encryption_public(),
    {
        proof { use_type_invariant(self); }
        &self.encryption_public
    }

    pub fn public_identity(&self) -> (p: PublicIdentity)
        ensures
            p.user_id@ == self.spec_user_id(),
            p.signing_public@ == self.spec_signing_public(),
            p.encryption_public@ == self.spec_encryption_public(),
    {
        proof { use_type_invariant(self); }
        PublicIdentity {
            user_id: self.user_id,
            signing_public: self.signing_public,
            encryption_public: self.encryption_public,
        }
    }

    pub fn fingerprint(&self) -> (f: [u8; 32])
        ensures
            f@ == spec_fingerprint(self.spec_signing_public(), self.spec_encryption_public()),
    {
        proof { use_type_invariant(self); }
        fingerprint(&self.signing_public, &self.encryption_public)
    }

    /// The Ed25519 signature of the message by this identity's signing key.
    pub fn sign(&self, message: &[u8]) -> (s: [u8; 64])
        ensures
            s@ == ed25519_signature(self.signing_seed(), message@),
    {
        ed25519_sign(&self.signing_seed, message)
    }

    /// The secret seed of the signing key, for the record native code keeps.
    pub(crate) fn signing_secret(&self) -> (s: &[u8; 32])
        ensures
            s@ == self.signing_seed(),
    {
        &self.signing_seed
    }

    /// The secret of the encryption key, for opening messages sealed to it.
    pub(crate) fn encryption_secret(&self) -> (s: &[u8; 32])
        ensures
            s@ == self.encryption_seed(),
    {
        &self.encryption_seed
    }
}

} // verus!
