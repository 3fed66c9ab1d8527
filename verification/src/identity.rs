//! Self-sovereign identity.
//!
//! Where TCP/IP names a node by its address and TLS by an X.509 chain, an
//! Aether node is named by an Ed25519 key pair:
//!
//! ```text
//! identity = SHA-256("AETHER-ID-" || Ed25519_public_key)
//! ```
//!
//! The identity is the 32-byte hash of the public key. It depends on no DNS,
//! CA or PKI, and does not change when the node's address does.
//!
//! An identity is held as its 32-byte Ed25519 seed, with the public key and
//! the hash that the seed determines; signing and key derivation go through
//! `ed25519-dalek`, hashing through `sha2`.

use vstd::prelude::*;

use crate::crypto::{sha256, sha256_digest};
use crate::error::{Error, Result};
use ed25519_dalek::{Signer, Verifier};
use vstd::string::StringSliceAdditionalSpecFns;

verus! {

// ─────────────────────────────────────────────────────────────────────
// Names for what Ed25519 computes
// ─────────────────────────────────────────────────────────────────────

/// The compressed Ed25519 public key of a 32-byte secret seed (RFC 8032).
pub uninterp spec fn ed25519_public_key(seed: Seq<u8>) -> Seq<u8>;

/// The Ed25519 signature of `msg` under the key of `seed` (RFC 8032,
/// deterministic).
pub uninterp spec fn ed25519_signature(seed: Seq<u8>, msg: Seq<u8>) -> Seq<u8>;

/// Whether 32 bytes decompress to an Ed25519 public key.
pub uninterp spec fn ed25519_key_valid(public_key: Seq<u8>) -> bool;

/// Whether `sig` is a valid signature of `msg` under `public_key`.
pub uninterp spec fn ed25519_signature_valid(public_key: Seq<u8>, msg: Seq<u8>, sig: Seq<u8>) -> bool;

// ─────────────────────────────────────────────────────────────────────
// Trusted wrappers
// ─────────────────────────────────────────────────────────────────────

/// A fresh signing key from the operating system's generator
/// (`SigningKey::generate(&mut OsRng)`), as its 32-byte seed. Nothing is
/// known of the value.
#[verifier::external_body]
fn random_signing_seed() -> (res: [u8; 32]) {
    ed25519_dalek::SigningKey::generate(&mut rand::rngs::OsRng).to_bytes()
}

/// `SigningKey::from_bytes(seed).verifying_key().to_bytes()`: the public key
/// of the seed, which, being a point of the curve, decompresses again.
#[verifier::external_body]
fn ed25519_public_from_seed(seed: &[u8; 32]) -> (res: [u8; 32])
    ensures
        res@ == ed25519_public_key(seed@),
        ed25519_key_valid(res@),
{
    ed25519_dalek::SigningKey::from_bytes(seed).verifying_key().to_bytes()
}

/// `SigningKey::from_bytes(seed).sign(msg).to_bytes()`: the deterministic
/// signature, which verifies under the seed's public key.
#[verifier::external_body]
fn ed25519_sign(seed: &[u8; 32], msg: &[u8]) -> (res: [u8; 64])
    ensures
        res@ == ed25519_signature(seed@, msg@),
        ed25519_signature_valid(ed25519_public_key(seed@), msg@, res@),
{
    ed25519_dalek::SigningKey::from_bytes(seed).sign(msg).to_bytes()
}

/// Whether `VerifyingKey::from_bytes(public_key)` succeeds.
#[verifier::external_body]
fn ed25519_key_check(public_key: &[u8; 32]) -> (res: bool)
    ensures
        res == ed25519_key_valid(public_key@),
{
    ed25519_dalek::VerifyingKey::from_bytes(public_key).is_ok()
}

/// `VerifyingKey::verify(msg, &Signature::from_bytes(sig))` under a key that
/// decompresses: whether the signature is valid.
#[verifier::external_body]
fn ed25519_verify(public_key: &[u8; 32], msg: &[u8], sig: &[u8; 64]) -> (res: bool)
    requires
        ed25519_key_valid(public_key@),
    ensures
        res == ed25519_signature_valid(public_key@, msg@, sig@),
{
    match ed25519_dalek::VerifyingKey::from_bytes(public_key) {
        Ok(vk) => vk.verify(msg, &ed25519_dalek::Signature::from_bytes(sig)).is_ok(),
        Err(_) => false,
    }
}

/// `hex::encode(data)`: two lower-case hex digits per byte, high nibble
/// first.
#[verifier::external_body]
pub(crate) fn hex_encode(data: &[u8]) -> (res: String)
    ensures
        res@ == hex_lower(data@),
{
    hex::encode(data)
}

/// `Zeroize::zeroize` on a seed: every byte becomes 0.
#[verifier::external_body]
fn zeroize_seed(seed: &mut [u8; 32])
    ensures
        final(seed)@ == Seq::new(32, |i: int| 0u8),
{
    zeroize::Zeroize::zeroize(seed)
}

// ─────────────────────────────────────────────────────────────────────
// Hex
// ─────────────────────────────────────────────────────────────────────

/// The lower-case hex digit of a nibble.
pub open spec fn hex_digit(n: u8) -> char {
    if n < 10 {
        (48 + n) as char
    } else {
        (87 + n) as char
    }
}

/// Lower-case hex of a byte string: two digits per byte, high nibble first.
pub open spec fn hex_lower(b: Seq<u8>) -> Seq<char>
    decreases b.len(),
{
    if b.len() == 0 {
        Seq::empty()
    } else {
        seq![hex_digit(b[0] >> 4u8), hex_digit(b[0] & 0x0Fu8)] + hex_lower(b.drop_first())
    }
}

/// Hex has two digits per byte.
pub proof fn lemma_hex_len(b: Seq<u8>)
    ensures
        hex_lower(b).len() == 2 * b.len(),
    decreases b.len(),
{
    if b.len() > 0 {
        lemma_hex_len(b.drop_first());
    }
}

/// The digits of the hex of `b`: byte `k` gives digits `2k` (high nibble)
/// and `2k + 1` (low nibble).
pub proof fn lemma_hex_digits(b: Seq<u8>)
    ensures
        hex_lower(b).len() == 2 * b.len(),
        forall|k: int|
            0 <= k < b.len() ==> hex_lower(b)[2 * k] == hex_digit(#[trigger] b[k] >> 4u8)
                && hex_lower(b)[2 * k + 1] == hex_digit(b[k] & 0x0Fu8),
    decreases b.len(),
{
    lemma_hex_len(b);
    if b.len() > 0 {
        let rest = b.drop_first();
        lemma_hex_digits(rest);
        let head = seq![hex_digit(b[0] >> 4u8), hex_digit(b[0] & 0x0Fu8)];
        assert(hex_lower(b) == head + hex_lower(rest));
        assert forall|k: int| 0 <= k < b.len() implies hex_lower(b)[2 * k] == hex_digit(
            #[trigger] b[k] >> 4u8,
        ) && hex_lower(b)[2 * k + 1] == hex_digit(b[k] & 0x0Fu8) by {
            if k > 0 {
                assert(b[k] == rest[k - 1]);
                assert(hex_lower(b)[2 * k] == hex_lower(rest)[2 * (k - 1)]);
                assert(hex_lower(b)[2 * k + 1] == hex_lower(rest)[2 * (k - 1) + 1]);
            }
        }
    }
}

// ─────────────────────────────────────────────────────────────────────
// Identity
// ─────────────────────────────────────────────────────────────────────

/// Domain-separation prefix of the identity hash.
pub open spec fn identity_prefix() -> Seq<u8> {
    "AETHER-ID-".spec_bytes()
}

/// The identity of a public key: SHA-256("AETHER-ID-" || public_key).
pub open spec fn identity_hash_of(public_key: Seq<u8>) -> Seq<u8> {
    sha256(identity_prefix() + public_key)
}

/// The identity hash of a public key.
fn compute_identity_hash(public_key: &[u8; 32]) -> (res: [u8; 32])
    ensures
        res@ == identity_hash_of(public_key@),
{
    let mut input: Vec<u8> = Vec::new();
    input.extend_from_slice("AETHER-ID-".as_bytes());
    input.extend_from_slice(public_key.as_slice());
    assert(input@ =~= identity_prefix() + public_key@);
    sha256_digest(input.as_slice())
}

/// The cryptographic identity of an Aether node: an Ed25519 key pair and the
/// hash that names it.
pub struct Identity {
    /// Secret seed of the signing key (kept in memory, never serialised).
    seed: [u8; 32],
    /// Ed25519 public key.
    public_key: [u8; 32],
    /// SHA-256("AETHER-ID-" || public_key).
    identity_hash: [u8; 32],
}

impl Identity {
    /// The public key is the seed's and the hash is the public key's.
    #[verifier::type_invariant]
    spec fn inv(self) -> bool {
        &&& self.public_key@ == ed25519_public_key(self.seed@)
        &&& ed25519_key_valid(self.public_key@)
        &&& self.identity_hash@ == identity_hash_of(self.public_key@)
    }

    /// The secret seed.
    pub closed spec fn spec_seed(self) -> Seq<u8> {
        self.seed@
    }

    /// The public key.
    pub closed spec fn spec_public_key(self) -> Seq<u8> {
        self.public_key@
    }

    /// The identity hash.
    pub closed spec fn spec_hash(self) -> Seq<u8> {
        self.identity_hash@
    }

    /// A new random identity from the operating system's generator.
    pub fn generate() -> (res: Identity)
        ensures
            res.spec_public_key() == ed25519_public_key(res.spec_seed()),
            res.spec_hash() == identity_hash_of(res.spec_public_key()),
    {
        let seed = random_signing_seed();
        Identity::from_seed(seed)
    }

    /// The identity of a 32-byte Ed25519 seed. The copy of the seed that was
    /// passed in is wiped once the key is built.
    pub fn from_seed(seed: [u8; 32]) -> (res: Identity)
        ensures
            res.spec_seed() == seed@,
            res.spec_public_key() == ed25519_public_key(seed@),
            res.spec_hash() == identity_hash_of(ed25519_public_key(seed@)),
    {
        let mut seed = seed;
        let key = seed;
        let public_key = ed25519_public_from_seed(&key);
        zeroize_seed(&mut seed);
        let identity_hash = compute_identity_hash(&public_key);
        Identity { seed: key, public_key, identity_hash }
    }

    /// The 32-byte identity hash.
    pub fn hash(&self) -> (res: &[u8; 32])
        ensures
            res@ == self.spec_hash(),
            res@ == identity_hash_of(self.spec_public_key()),
    {
        proof {
            use_type_invariant(self);
        }
        &self.identity_hash
    }

    /// The identity hash in lower-case hex (64 characters).
    pub fn hash_hex(&self) -> (res: String)
        ensures
            res@ == hex_lower(self.spec_hash()),
            res@.len() == 64,
    {
        proof {
            lemma_hex_len(self.identity_hash@);
        }
        hex_encode(self.identity_hash.as_slice())
    }

    /// The secret seed in lower-case hex, as a key file holds it. Whoever
    /// reads this text holds the signing key; `from_seed` of the seed it
    /// stands for gives this identity again.
    pub fn seed_hex(&self) -> (res: String)
        ensures
            res@ == hex_lower(self.spec_seed()),
            res@.len() == 64,
            self.spec_seed().len() == 32,
            self.spec_public_key() == ed25519_public_key(self.spec_seed()),
            self.spec_hash() == identity_hash_of(self.spec_public_key()),
    {
        proof {
            use_type_invariant(self);
            lemma_hex_len(self.seed@);
        }
        hex_encode(self.seed.as_slice())
    }

    /// The Ed25519 public key (32 bytes).
    pub fn public_key_bytes(&self) -> (res: [u8; 32])
        ensures
            res@ == self.spec_public_key(),
            res@ == ed25519_public_key(self.spec_seed()),
            ed25519_key_valid(res@),
            identity_hash_of(res@) == self.spec_hash(),
    {
        proof {
            use_type_invariant(self);
        }
        self.public_key
    }

    /// Sign a message: the handshake's proof of identity, a transcript's
    /// signature. The signature verifies under this identity's public key.
    pub fn sign(&self, message: &[u8]) -> (res: [u8; 64])
        ensures
            res@ == ed25519_signature(self.spec_seed(), message@),
            ed25519_signature_valid(self.spec_public_key(), message@, res@),
    {
        proof {
            use_type_invariant(self);
        }
        ed25519_sign(&self.seed, message)
    }

    /// Check a signature; needs only the public key. Fails when the key does
    /// not decompress or the signature does not verify.
    pub fn verify(public_key: &[u8; 32], message: &[u8], signature: &[u8; 64]) -> (res: Result<()>)
        ensures
            res is Ok <==> ed25519_key_valid(public_key@) && ed25519_signature_valid(
                public_key@,
                message@,
                signature@,
            ),
            res matches Err(e) ==> e is Crypto,
    {
        if !ed25519_key_check(public_key) {
            return Err(Error::Crypto("Invalid Ed25519 public key".to_string()));
        }
        if !ed25519_verify(public_key, message, signature) {
            return Err(Error::Crypto("Signature verification failed".to_string()));
        }
        Ok(())
    }

    /// Whether a public key is the one an identity hash names. Fails when
    /// the key does not decompress.
    pub fn verify_hash(public_key: &[u8; 32], identity_hash: &[u8; 32]) -> (res: Result<bool>)
        ensures
            match res {
                Ok(b) => ed25519_key_valid(public_key@) && b == (identity_hash_of(public_key@)
                    == identity_hash@),
                Err(e) => !ed25519_key_valid(public_key@) && e is Crypto,
            },
    {
        if !ed25519_key_check(public_key) {
            return Err(Error::Crypto("Invalid Ed25519 public key".to_string()));
        }
        let computed = compute_identity_hash(public_key);
        Ok(crate::crypto::bytes_eq(computed.as_slice(), identity_hash.as_slice()))
    }
}

/// Two identities are equal when their hashes are.
impl PartialEq for Identity {
    fn eq(&self, other: &Self) -> (res: bool) {
        crate::crypto::bytes_eq(self.identity_hash.as_slice(), other.identity_hash.as_slice())
    }
}

impl vstd::std_specs::cmp::PartialEqSpecImpl for Identity {
    open spec fn obeys_eq_spec() -> bool {
        true
    }

    open spec fn eq_spec(&self, other: &Self) -> bool {
        self.spec_hash() == other.spec_hash()
    }
}

impl Eq for Identity {}

/// A clone holds the same keys.
impl Clone for Identity {
    fn clone(&self) -> (res: Self)
        ensures
            res == *self,
    {
        proof {
            use_type_invariant(self);
        }
        Identity { seed: self.seed, public_key: self.public_key, identity_hash: self.identity_hash }
    }
}

} // verus!
