//! Cryptographic operations: AEAD protection of packets (AES-256-GCM), the
//! HKDF key schedule, Finished MACs and the ephemeral X25519 exchange.
//!
//! Aether has no plaintext mode: every packet after the handshake is sealed.
//!
//! The primitives themselves come from the RustCrypto and dalek crates. Each
//! is reached through one small trusted wrapper whose contract names its
//! result; the key schedule, the nonce construction and the checks built on
//! them are verified here against those names.

use vstd::prelude::*;

use crate::error::{Error, Result};
use aead::{Aead, KeyInit};
use hmac::Mac;
use rand::RngCore;
use sha2::Digest;
use vstd::string::StringSliceAdditionalSpecFns;

verus! {

/// AEAD key length in bytes (256 bits).
pub const AEAD_KEY_LEN: usize = 32;

/// AEAD nonce length in bytes (96 bits).
pub const AEAD_NONCE_LEN: usize = 12;

/// AEAD authentication tag length in bytes (128 bits).
pub const AEAD_TAG_LEN: usize = 16;

/// Longest plaintext, and longest associated data, that AES-GCM accepts.
pub const AEAD_MAX_INPUT: u64 = 68719476736;

/// Longest output of HKDF-SHA256: 255 blocks of 32 bytes.
pub const HKDF_MAX_OUTPUT: usize = 8160;

// ─────────────────────────────────────────────────────────────────────
// Names for what the primitives compute
// ─────────────────────────────────────────────────────────────────────

/// HKDF-SHA256 (RFC 5869): extract with `salt` (none: the hash length of
/// zero bytes), then expand `ikm` under `info` to `len` bytes.
pub uninterp spec fn hkdf_sha256_okm(salt: Option<Seq<u8>>, ikm: Seq<u8>, info: Seq<u8>, len: nat) -> Seq<u8>;

/// HMAC-SHA256 (RFC 2104) of `msg` under `key`.
pub uninterp spec fn hmac_sha256(key: Seq<u8>, msg: Seq<u8>) -> Seq<u8>;

/// SHA-256 digest of `data`.
pub uninterp spec fn sha256(data: Seq<u8>) -> Seq<u8>;

/// AES-256-GCM sealing of `msg` with `aad`: the ciphertext followed by the tag.
pub uninterp spec fn aes256gcm_seal(key: Seq<u8>, nonce: Seq<u8>, msg: Seq<u8>, aad: Seq<u8>) -> Seq<u8>;

/// AES-256-GCM opening of `ct` with `aad`: the plaintext when the tag checks.
pub uninterp spec fn aes256gcm_open(key: Seq<u8>, nonce: Seq<u8>, ct: Seq<u8>, aad: Seq<u8>) -> Option<Seq<u8>>;

/// The bytes of an optional salt.
pub open spec fn salt_view(salt: Option<&[u8]>) -> Option<Seq<u8>> {
    match salt {
        Some(s) => Some(s@),
        None => None,
    }
}

// ─────────────────────────────────────────────────────────────────────
// Trusted wrappers
// ─────────────────────────────────────────────────────────────────────

/// `hkdf::Hkdf::<Sha256>::new(salt, ikm)` then `expand(info, okm)` into
/// `len` bytes. The crate refuses an output longer than 255 hash lengths
/// and accepts every other; the bytes are HKDF's output.
#[verifier::external_body]
fn hkdf_sha256(salt: Option<&[u8]>, ikm: &[u8], info: &[u8], len: usize) -> (res: Option<Vec<u8>>)
    ensures
        res is Some <==> len <= HKDF_MAX_OUTPUT,
        res matches Some(okm) ==> okm@ == hkdf_sha256_okm(salt_view(salt), ikm@, info@, len as nat)
            && okm@.len() == len,
{
    let hk = hkdf::Hkdf::<sha2::Sha256>::new(salt, ikm);
    let mut okm = vec![0u8; len];
    match hk.expand(info, &mut okm) {
        Ok(()) => Some(okm),
        Err(_) => None,
    }
}

/// `Hmac::<Sha256>::new_from_slice(key)`, `update(msg)`, `finalize()`. HMAC
/// takes keys of any length, so this never fails; the tag has 32 bytes.
#[verifier::external_body]
fn hmac_sha256_tag(key: &[u8], msg: &[u8]) -> (res: Vec<u8>)
    ensures
        res@ == hmac_sha256(key@, msg@),
        res@.len() == 32,
{
    let mut mac = <hmac::Hmac<sha2::Sha256> as Mac>::new_from_slice(key).unwrap();
    mac.update(msg);
    mac.finalize().into_bytes().to_vec()
}

/// `Sha256::digest(data)`: the 32-byte digest.
#[verifier::external_body]
pub(crate) fn sha256_digest(data: &[u8]) -> (res: [u8; 32])
    ensures
        res@ == sha256(data@),
{
    sha2::Sha256::digest(data).into()
}

/// `Aes256Gcm::new(key).encrypt(nonce, Payload { msg, aad })`. The crate
/// refuses a message or associated data longer than 2^36 bytes; otherwise
/// it returns the ciphertext and the 16-byte tag, which the same key, nonce
/// and associated data open back to the message.
#[verifier::external_body]
fn aes256gcm_encrypt(key: &[u8; 32], nonce: &[u8; 12], msg: &[u8], aad: &[u8]) -> (res: Option<Vec<u8>>)
    ensures
        res is Some <==> (msg@.len() <= AEAD_MAX_INPUT && aad@.len() <= AEAD_MAX_INPUT),
        res matches Some(ct) ==> ct@ == aes256gcm_seal(key@, nonce@, msg@, aad@)
            && ct@.len() == msg@.len() + AEAD_TAG_LEN
            && aes256gcm_open(key@, nonce@, ct@, aad@) == Some(msg@),
{
    let cipher = aes_gcm::Aes256Gcm::new(aead::Key::<aes_gcm::Aes256Gcm>::from_slice(key));
    let nonce = aead::Nonce::<aes_gcm::Aes256Gcm>::from_slice(nonce);
    match cipher.encrypt(nonce, aead::Payload { msg, aad }) {
        Ok(ct) => Some(ct),
        Err(_) => None,
    }
}

/// `Aes256Gcm::new(key).decrypt(nonce, Payload { msg: ct, aad })`: the
/// plaintext when the tag checks. Input shorter than the tag never opens.
#[verifier::external_body]
fn aes256gcm_decrypt(key: &[u8; 32], nonce: &[u8; 12], ct: &[u8], aad: &[u8]) -> (res: Option<Vec<u8>>)
    ensures
        match res {
            Some(pt) => aes256gcm_open(key@, nonce@, ct@, aad@) == Some(pt@)
                && pt@.len() + AEAD_TAG_LEN == ct@.len(),
            None => aes256gcm_open(key@, nonce@, ct@, aad@) is None,
        },
        ct@.len() < AEAD_TAG_LEN ==> res is None,
{
    let cipher = aes_gcm::Aes256Gcm::new(aead::Key::<aes_gcm::Aes256Gcm>::from_slice(key));
    let nonce = aead::Nonce::<aes_gcm::Aes256Gcm>::from_slice(nonce);
    match cipher.decrypt(nonce, aead::Payload { msg: ct, aad }) {
        Ok(pt) => Some(pt),
        Err(_) => None,
    }
}

/// Eight bytes from the operating system's generator (`OsRng.fill_bytes`),
/// read little-endian. Nothing is known of the value.
#[verifier::external_body]
fn os_random_u64() -> u64 {
    let mut bytes = [0u8; 8];
    rand::rngs::OsRng.fill_bytes(&mut bytes);
    u64::from_le_bytes(bytes)
}

// ─────────────────────────────────────────────────────────────────────
// Byte helpers
// ─────────────────────────────────────────────────────────────────────

/// Whether two byte strings are equal.
pub(crate) fn bytes_eq(a: &[u8], b: &[u8]) -> (res: bool)
    ensures
        res == (a@ == b@),
{
    if a.len() != b.len() {
        return false;
    }
    let mut i: usize = 0;
    while i < a.len()
        invariant
            a@.len() == b@.len(),
            i <= a@.len(),
            forall|k: int| 0 <= k < i ==> a@[k] == b@[k],
        decreases a@.len() - i,
    {
        if a[i] != b[i] {
            return false;
        }
        i = i + 1;
    }
    assert(a@ =~= b@);
    true
}

/// Whether two strings are equal.
pub(crate) fn str_eq(a: &str, b: &str) -> (res: bool)
    ensures
        res == (a@ == b@),
{
    let x = a.to_owned();
    let y = b.to_owned();
    x == y
}


// ─────────────────────────────────────────────────────────────────────
// AEAD algorithm
// ─────────────────────────────────────────────────────────────────────

/// Initial salt that protects the first packet's key.
pub const INITIAL_SALT: &'static str = "AETHER-v0-initial-salt-32bytes!OK";

/// The AEAD algorithm of a session.
#[derive(Debug, Clone, Copy, PartialEq, Eq, Structural)]
pub enum AeadAlgorithm {
    /// AES-256-GCM (hardware-accelerated on x86 through AES-NI).
    Aes256Gcm,
    /// ChaCha20-Poly1305 (faster on ARM and without AES-NI).
    ChaCha20Poly1305,
}

impl AeadAlgorithm {
    /// The algorithm a name stands for: each has its canonical and its
    /// lower-case spelling.
    pub open spec fn spec_from_str(s: Seq<char>) -> Option<AeadAlgorithm> {
        if s == "AES-256-GCM"@ || s == "aes-256-gcm"@ {
            Some(AeadAlgorithm::Aes256Gcm)
        } else if s == "ChaCha20-Poly1305"@ || s == "chacha20-poly1305"@ {
            Some(AeadAlgorithm::ChaCha20Poly1305)
        } else {
            None
        }
    }

    /// Parse an algorithm name.
    pub fn from_str(s: &str) -> (res: Option<AeadAlgorithm>)
        ensures
            res == AeadAlgorithm::spec_from_str(s@),
    {
        if str_eq(s, "AES-256-GCM") || str_eq(s, "aes-256-gcm") {
            Some(AeadAlgorithm::Aes256Gcm)
        } else if str_eq(s, "ChaCha20-Poly1305") || str_eq(s, "chacha20-poly1305") {
            Some(AeadAlgorithm::ChaCha20Poly1305)
        } else {
            None
        }
    }

    /// The algorithm's canonical name.
    pub open spec fn spec_name(self) -> Seq<char> {
        match self {
            AeadAlgorithm::Aes256Gcm => "AES-256-GCM"@,
            AeadAlgorithm::ChaCha20Poly1305 => "ChaCha20-Poly1305"@,
        }
    }

    /// The algorithm's canonical name, as it is displayed.
    pub fn name(&self) -> (res: &'static str)
        ensures
            res@ == self.spec_name(),
    {
        match self {
            AeadAlgorithm::Aes256Gcm => "AES-256-GCM",
            AeadAlgorithm::ChaCha20Poly1305 => "ChaCha20-Poly1305",
        }
    }
}

/// A canonical name parses back to its algorithm.
pub proof fn lemma_aead_name_roundtrip(a: AeadAlgorithm)
    ensures
        AeadAlgorithm::spec_from_str(a.spec_name()) == Some(a),
{
    reveal_strlit("AES-256-GCM");
    reveal_strlit("aes-256-gcm");
    reveal_strlit("ChaCha20-Poly1305");
    reveal_strlit("chacha20-poly1305");
    if a is ChaCha20Poly1305 {
        assert("ChaCha20-Poly1305"@[0] != "AES-256-GCM"@[0]);
        assert("ChaCha20-Poly1305"@[0] != "aes-256-gcm"@[0]);
    }
}

// ─────────────────────────────────────────────────────────────────────
// Directional keys
// ─────────────────────────────────────────────────────────────────────

/// Byte `k` (0 is the lowest) of `x` in little-endian order.
pub open spec fn le_byte(x: u64, k: int) -> u8 {
    (x >> ((8 * k) as u64)) as u8
}

/// Nonce of packet `pn`: the IV with its last eight bytes XORed with the
/// little-endian bytes of `pn`.
pub open spec fn packet_nonce(iv: Seq<u8>, pn: u64) -> Seq<u8> {
    Seq::new(12, |i: int| if i < 4 { iv[i] } else { iv[i] ^ le_byte(pn, i - 4) })
}

/// The 44 bytes of key material that `secret` expands to under `label`:
/// HKDF-SHA256 without salt; the key is the first 32, the IV the last 12.
pub open spec fn key_material(secret: Seq<u8>, label: Seq<u8>) -> Seq<u8> {
    hkdf_sha256_okm(None, secret, label, 44)
}

/// Session keys of one direction.
pub struct DirectionalKeys {
    /// AEAD key (256 bits).
    pub tx_key: [u8; 32],
    /// IV, the base of every nonce (96 bits).
    pub tx_iv: [u8; 12],
    /// Packet counter, advanced once per packet.
    pub packet_number: u64,
}

impl DirectionalKeys {
    /// These keys are the ones `secret` expands to under `label`, with the
    /// packet counter at zero.
    pub open spec fn derived_from(&self, secret: Seq<u8>, label: Seq<u8>) -> bool {
        &&& self.tx_key@ == key_material(secret, label).subrange(0, 32)
        &&& self.tx_iv@ == key_material(secret, label).subrange(32, 44)
        &&& self.packet_number == 0
    }

    /// Nonce of the current packet.
    pub open spec fn nonce(&self) -> Seq<u8> {
        packet_nonce(self.tx_iv@, self.packet_number)
    }

    /// What sealing `pt` with `aad` under the current nonce gives.
    pub open spec fn spec_seal(&self, pt: Seq<u8>, aad: Seq<u8>) -> Seq<u8> {
        aes256gcm_seal(self.tx_key@, self.nonce(), pt, aad)
    }

    /// What opening `ct` with `aad` under the current nonce gives.
    pub open spec fn spec_open(&self, ct: Seq<u8>, aad: Seq<u8>) -> Option<Seq<u8>> {
        aes256gcm_open(self.tx_key@, self.nonce(), ct, aad)
    }

    /// Expand `secret` under `label` into a key and an IV. Expanding 44
    /// bytes never fails.
    pub fn derive(secret: &[u8], label: &[u8]) -> (res: Result<Self>)
        ensures
            res matches Ok(k) && k.derived_from(secret@, label@),
    {
        let okm = match hkdf_sha256(None, secret, label, AEAD_KEY_LEN + AEAD_NONCE_LEN) {
            Some(okm) => okm,
            None => {
                return Err(Error::Crypto("HKDF expand failed: invalid length".to_string()));
            },
        };
        let ghost m = key_material(secret@, label@);
        assert(salt_view(None) == None::<Seq<u8>>);
        let mut tx_key = [0u8; 32];
        let mut i: usize = 0;
        while i < AEAD_KEY_LEN
            invariant
                okm@ == m,
                m.len() == 44,
                i <= 32,
                forall|k: int| 0 <= k < i ==> tx_key@[k] == m[k],
            decreases 32 - i,
        {
            tx_key[i] = okm[i];
            i = i + 1;
        }
        let mut tx_iv = [0u8; 12];
        let mut j: usize = 0;
        while j < AEAD_NONCE_LEN
            invariant
                okm@ == m,
                m.len() == 44,
                j <= 12,
                forall|k: int| 0 <= k < j ==> tx_iv@[k] == m[32 + k],
            decreases 12 - j,
        {
            tx_iv[j] = okm[AEAD_KEY_LEN + j];
            j = j + 1;
        }
        assert(tx_key@ =~= m.subrange(0, 32));
        assert(tx_iv@ =~= m.subrange(32, 44));
        Ok(DirectionalKeys { tx_key, tx_iv, packet_number: 0 })
    }

    /// Seal `plaintext` with `aad` under the current packet's nonce. Fails
    /// only where AES-GCM refuses the input's length (over 2^36 bytes); what
    /// it gives opens back to the plaintext with the same keys.
    pub fn encrypt(&self, plaintext: &[u8], aad: &[u8]) -> (res: Result<Vec<u8>>)
        ensures
            res is Ok <==> (plaintext@.len() <= AEAD_MAX_INPUT && aad@.len() <= AEAD_MAX_INPUT),
            res matches Ok(ct) ==> ct@ == self.spec_seal(plaintext@, aad@)
                && ct@.len() == plaintext@.len() + AEAD_TAG_LEN
                && self.spec_open(ct@, aad@) == Some(plaintext@),
            res matches Err(e) ==> e is Crypto,
    {
        let nonce = self.make_nonce();
        match aes256gcm_encrypt(&self.tx_key, &nonce, plaintext, aad) {
            Some(ct) => Ok(ct),
            None => Err(Error::Crypto("AEAD encrypt failed: input too long".to_string())),
        }
    }

    /// Open `ciphertext` with `aad` under the current packet's nonce.
    pub fn decrypt(&self, ciphertext: &[u8], aad: &[u8]) -> (res: Result<Vec<u8>>)
        ensures
            match res {
                Ok(pt) => self.spec_open(ciphertext@, aad@) == Some(pt@),
                Err(e) => self.spec_open(ciphertext@, aad@) is None && e is Crypto,
            },
    {
        let nonce = self.make_nonce();
        match aes256gcm_decrypt(&self.tx_key, &nonce, ciphertext, aad) {
            Some(pt) => Ok(pt),
            None => Err(Error::Crypto("AEAD decrypt failed: authentication failed".to_string())),
        }
    }

    /// The nonce of the current packet.
    fn make_nonce(&self) -> (nonce: [u8; 12])
        ensures
            nonce@ == self.nonce(),
    {
        let mut nonce = self.tx_iv;
        let pn = self.packet_number;
        let mut i: usize = 0;
        while i < 8
            invariant
                i <= 8,
                pn == self.packet_number,
                forall|k: int| 0 <= k < 4 ==> nonce@[k] == self.tx_iv@[k],
                forall|k: int| 4 <= k < 4 + i ==> nonce@[k] == self.tx_iv@[k] ^ le_byte(pn, k - 4),
                forall|k: int| 4 + i <= k < 12 ==> nonce@[k] == self.tx_iv@[k],
            decreases 8 - i,
        {
            let shift: u64 = 8 * (i as u64);
            let b: u8 = (pn >> shift) as u8;
            assert(b == le_byte(pn, (4 + i) - 4));
            nonce[4 + i] = nonce[4 + i] ^ b;
            i = i + 1;
        }
        assert(nonce@ =~= self.nonce());
        nonce
    }
}

/// Distinct packet numbers give distinct nonces under one IV: no nonce is
/// used twice while the counter does not wrap.
pub proof fn lemma_nonce_unique(iv: Seq<u8>, p1: u64, p2: u64)
    requires
        iv.len() == 12,
        packet_nonce(iv, p1) == packet_nonce(iv, p2),
    ensures
        p1 == p2,
{
    let n1 = packet_nonce(iv, p1);
    let n2 = packet_nonce(iv, p2);
    assert forall|k: int| 0 <= k < 8 implies le_byte(p1, k) == le_byte(p2, k) by {
        assert(n1[4 + k] == n2[4 + k]);
        let x = iv[4 + k];
        let a = le_byte(p1, k);
        let b = le_byte(p2, k);
        assert((x ^ a) == (x ^ b) ==> a == b) by (bit_vector);
    }
    assert(le_byte(p1, 0) == le_byte(p2, 0));
    assert(p1 >> 0u64 == p1 && p2 >> 0u64 == p2) by (bit_vector);
    assert(le_byte(p1, 1) == le_byte(p2, 1));
    assert(le_byte(p1, 2) == le_byte(p2, 2));
    assert(le_byte(p1, 3) == le_byte(p2, 3));
    assert(le_byte(p1, 4) == le_byte(p2, 4));
    assert(le_byte(p1, 5) == le_byte(p2, 5));
    assert(le_byte(p1, 6) == le_byte(p2, 6));
    assert(le_byte(p1, 7) == le_byte(p2, 7));
    assert(p1 == p2) by (bit_vector)
        requires
            p1 as u8 == p2 as u8,
            (p1 >> 8u64) as u8 == (p2 >> 8u64) as u8,
            (p1 >> 16u64) as u8 == (p2 >> 16u64) as u8,
            (p1 >> 24u64) as u8 == (p2 >> 24u64) as u8,
            (p1 >> 32u64) as u8 == (p2 >> 32u64) as u8,
            (p1 >> 40u64) as u8 == (p2 >> 40u64) as u8,
            (p1 >> 48u64) as u8 == (p2 >> 48u64) as u8,
            (p1 >> 56u64) as u8 == (p2 >> 56u64) as u8,
    ;
}

// ─────────────────────────────────────────────────────────────────────
// AEAD session
// ─────────────────────────────────────────────────────────────────────

/// Label of the keys the client sends with.
pub open spec fn client_tx_label() -> Seq<u8> {
    "aether-client-tx".spec_bytes()
}

/// Label of the keys the server sends with.
pub open spec fn server_tx_label() -> Seq<u8> {
    "aether-server-tx".spec_bytes()
}

/// AEAD session: the keys of both directions.
pub struct AeadSession {
    /// Keys the client sends with (and the server receives with).
    pub client_tx: DirectionalKeys,
    /// Keys the server sends with (and the client receives with).
    pub server_tx: DirectionalKeys,
    /// The algorithm in use.
    pub algorithm: AeadAlgorithm,
}

impl AeadSession {
    /// Both directions' keys are the ones `session_key` expands to.
    pub open spec fn derived_from(&self, session_key: Seq<u8>) -> bool {
        &&& self.client_tx.derived_from(session_key, client_tx_label())
        &&& self.server_tx.derived_from(session_key, server_tx_label())
    }

    /// The keys one side sends with.
    pub open spec fn spec_tx_keys(&self, is_client: bool) -> DirectionalKeys {
        if is_client {
            self.client_tx
        } else {
            self.server_tx
        }
    }

    /// The keys one side receives with.
    pub open spec fn spec_rx_keys(&self, is_client: bool) -> DirectionalKeys {
        if is_client {
            self.server_tx
        } else {
            self.client_tx
        }
    }

    /// A session from the key the handshake agreed on.
    pub fn new(session_key: &[u8], algorithm: AeadAlgorithm) -> (res: Result<Self>)
        ensures
            res matches Ok(s) && s.derived_from(session_key@) && s.algorithm == algorithm,
    {
        let client_tx = DirectionalKeys::derive(session_key, "aether-client-tx".as_bytes())?;
        let server_tx = DirectionalKeys::derive(session_key, "aether-server-tx".as_bytes())?;
        Ok(AeadSession { client_tx, server_tx, algorithm })
    }

    /// The keys this side sends with.
    pub fn tx_keys(&self, is_client: bool) -> (res: &DirectionalKeys)
        ensures
            *res == self.spec_tx_keys(is_client),
    {
        if is_client {
            &self.client_tx
        } else {
            &self.server_tx
        }
    }

    /// The keys this side receives with.
    pub fn rx_keys(&self, is_client: bool) -> (res: &DirectionalKeys)
        ensures
            *res == self.spec_rx_keys(is_client),
    {
        if is_client {
            &self.server_tx
        } else {
            &self.client_tx
        }
    }

    /// The session after this side sent a packet: the counter of the keys
    /// it sends with is one further.
    pub open spec fn spec_after_tx(self, is_client: bool) -> AeadSession {
        if is_client {
            AeadSession {
                client_tx: DirectionalKeys {
                    packet_number: (self.client_tx.packet_number + 1) as u64,
                    ..self.client_tx
                },
                ..self
            }
        } else {
            AeadSession {
                server_tx: DirectionalKeys {
                    packet_number: (self.server_tx.packet_number + 1) as u64,
                    ..self.server_tx
                },
                ..self
            }
        }
    }

    /// The session after this side received a packet: the counter of the
    /// keys it receives with is one further.
    pub open spec fn spec_after_rx(self, is_client: bool) -> AeadSession {
        self.spec_after_tx(!is_client)
    }

    /// Advance the packet counter of the keys this side sends with, once a
    /// packet went out under it: the next packet gets the next nonce. The
    /// receiving direction, the keys and the algorithm stay.
    pub fn increment_tx(&mut self, is_client: bool)
        requires
            old(self).spec_tx_keys(is_client).packet_number < u64::MAX,
        ensures
            *final(self) == old(self).spec_after_tx(is_client),
            final(self).spec_tx_keys(is_client) == (DirectionalKeys {
                packet_number: (old(self).spec_tx_keys(is_client).packet_number + 1) as u64,
                ..old(self).spec_tx_keys(is_client)
            }),
            final(self).spec_rx_keys(is_client) == old(self).spec_rx_keys(is_client),
            final(self).algorithm == old(self).algorithm,
    {
        if is_client {
            self.client_tx.packet_number = self.client_tx.packet_number + 1;
        } else {
            self.server_tx.packet_number = self.server_tx.packet_number + 1;
        }
    }

    /// Advance the packet counter of the keys this side receives with, once
    /// a packet opened under it. The sending direction, the keys and the
    /// algorithm stay.
    pub fn increment_rx(&mut self, is_client: bool)
        requires
            old(self).spec_rx_keys(is_client).packet_number < u64::MAX,
        ensures
            *final(self) == old(self).spec_after_rx(is_client),
            final(self).spec_rx_keys(is_client) == (DirectionalKeys {
                packet_number: (old(self).spec_rx_keys(is_client).packet_number + 1) as u64,
                ..old(self).spec_rx_keys(is_client)
            }),
            final(self).spec_tx_keys(is_client) == old(self).spec_tx_keys(is_client),
            final(self).algorithm == old(self).algorithm,
    {
        self.increment_tx(!is_client);
    }
}

/// Sending moves on to a fresh nonce: after a packet goes out, the send
/// keys' counter is one further and their nonce differs from the one just
/// used, while the receiving direction is untouched. With
/// `lemma_nonce_unique`, no two packets of a direction share a nonce.
pub proof fn lemma_send_advances_nonce(s: AeadSession, is_client: bool)
    requires
        s.spec_tx_keys(is_client).packet_number < u64::MAX,
    ensures
        s.spec_after_tx(is_client).spec_tx_keys(is_client).packet_number == s.spec_tx_keys(
            is_client,
        ).packet_number + 1,
        s.spec_after_tx(is_client).spec_tx_keys(is_client).nonce() != s.spec_tx_keys(
            is_client,
        ).nonce(),
        s.spec_after_tx(is_client).spec_rx_keys(is_client) == s.spec_rx_keys(is_client),
{
    let k = s.spec_tx_keys(is_client);
    let k2 = s.spec_after_tx(is_client).spec_tx_keys(is_client);
    assert(k2.tx_iv == k.tx_iv);
    if k2.nonce() == k.nonce() {
        lemma_nonce_unique(k.tx_iv@, k2.packet_number, k.packet_number);
    }
}

/// Two sessions from one session key fit together: what one side sends
/// with is what the other side receives with.
pub proof fn lemma_session_directions_match(a: AeadSession, b: AeadSession, key: Seq<u8>, is_client: bool)
    requires
        a.derived_from(key),
        b.derived_from(key),
    ensures
        a.spec_tx_keys(is_client).tx_key@ == b.spec_rx_keys(!is_client).tx_key@,
        a.spec_tx_keys(is_client).tx_iv@ == b.spec_rx_keys(!is_client).tx_iv@,
        a.spec_tx_keys(is_client).packet_number == b.spec_rx_keys(!is_client).packet_number,
{
}

// ─────────────────────────────────────────────────────────────────────
// Key schedule
// ─────────────────────────────────────────────────────────────────────

/// Salt of the key schedule's extract step.
pub open spec fn session_salt() -> Seq<u8> {
    "AETHER-v0".spec_bytes()
}

/// The key that protects Initial packets to `dest_connection_id`.
pub open spec fn spec_initial_key(dest_connection_id: Seq<u8>) -> Seq<u8> {
    hkdf_sha256_okm(Some(INITIAL_SALT.spec_bytes()), dest_connection_id, "aether-initial".spec_bytes(), 32)
}

/// The session key of a shared secret and a transcript:
/// HKDF-Expand(HKDF-Extract("AETHER-v0", shared_secret), transcript, 32).
pub open spec fn spec_session_key(shared_secret: Seq<u8>, transcript: Seq<u8>) -> Seq<u8> {
    hkdf_sha256_okm(Some(session_salt()), shared_secret, transcript, 32)
}

/// Copy 32 bytes into an array.
fn to_array32(v: &Vec<u8>) -> (res: [u8; 32])
    requires
        v@.len() == 32,
    ensures
        res@ == v@,
{
    let mut out = [0u8; 32];
    let mut i: usize = 0;
    while i < 32
        invariant
            v@.len() == 32,
            i <= 32,
            forall|k: int| 0 <= k < i ==> out@[k] == v@[k],
        decreases 32 - i,
    {
        out[i] = v[i];
        i = i + 1;
    }
    assert(out@ =~= v@);
    out
}

/// Key of the first Initial packet. The salt is public, so this gives no
/// confidentiality, but it keeps the ClientHello from being altered.
pub fn derive_initial_key(dest_connection_id: &[u8]) -> (res: [u8; 32])
    ensures
        res@ == spec_initial_key(dest_connection_id@),
{
    let okm = hkdf_sha256(Some(INITIAL_SALT.as_bytes()), dest_connection_id, "aether-initial".as_bytes(), 32);
    match okm {
        Some(k) => to_array32(&k),
        None => [0u8; 32],
    }
}

/// Session key from the shared secret and the transcript. Expanding 32
/// bytes never fails.
pub fn derive_session_key(shared_secret: &[u8], transcript: &[u8]) -> (res: Result<[u8; 32]>)
    ensures
        res matches Ok(k) && k@ == spec_session_key(shared_secret@, transcript@),
{
    match hkdf_sha256(Some("AETHER-v0".as_bytes()), shared_secret, transcript, 32) {
        Some(k) => Ok(to_array32(&k)),
        None => Err(Error::Crypto("HKDF session key derivation failed: invalid length".to_string())),
    }
}

/// Finished MAC: HMAC-SHA256(session_key, transcript).
pub fn compute_finished(session_key: &[u8], transcript: &[u8]) -> (res: Vec<u8>)
    ensures
        res@ == hmac_sha256(session_key@, transcript@),
        res@.len() == 32,
{
    hmac_sha256_tag(session_key, transcript)
}

/// Check a peer's Finished MAC against the transcript.
pub fn verify_finished(session_key: &[u8], transcript: &[u8], finished: &[u8]) -> (res: Result<()>)
    ensures
        res is Ok <==> finished@ == hmac_sha256(session_key@, transcript@),
        res matches Err(e) ==> e is Crypto,
{
    let expected = compute_finished(session_key, transcript);
    if !bytes_eq(expected.as_slice(), finished) {
        return Err(Error::Crypto("Finished MAC verification failed".to_string()));
    }
    Ok(())
}

/// A random 64-bit connection id.
pub fn generate_connection_id() -> (res: u64) {
    os_random_u64()
}

/// A random nonce for a PathChallenge.
pub fn generate_path_nonce() -> (res: u64) {
    os_random_u64()
}

// ─────────────────────────────────────────────────────────────────────
// X25519
// ─────────────────────────────────────────────────────────────────────

/// The ephemeral X25519 secret is carried through unread.
#[verifier::external_type_specification]
#[verifier::external_body]
pub struct ExEphemeralSecret(x25519_dalek::EphemeralSecret);

/// A fresh ephemeral X25519 key pair from the operating system's generator
/// (`EphemeralSecret::random_from_rng`, `PublicKey::from`): the public key's
/// bytes and the secret. Nothing is stated of the values: they are random
/// and the secret cannot be read.
#[verifier::external_body]
pub fn x25519_generate_keypair() -> (res: ([u8; 32], x25519_dalek::EphemeralSecret)) {
    let secret = x25519_dalek::EphemeralSecret::random_from_rng(rand::rngs::OsRng);
    let public = x25519_dalek::PublicKey::from(&secret);
    (*public.as_bytes(), secret)
}

/// X25519 Diffie-Hellman (`EphemeralSecret::diffie_hellman`), consuming the
/// secret: the shared secret's 32 bytes. Nothing is stated of them, since
/// the secret they depend on cannot be read.
#[verifier::external_body]
pub fn x25519_dh(secret: x25519_dalek::EphemeralSecret, public: &[u8; 32]) -> (res: [u8; 32]) {
    let pk = x25519_dalek::PublicKey::from(*public);
    *secret.diffie_hellman(&pk).as_bytes()
}

} // verus!
