//! Key vault backends: a file or an environment variable holding the
//! node's 32-byte seed in hex. Reading the file or the variable is the
//! caller's; turning what was read into a seed is here.

use vstd::prelude::*;
use vstd::string::StringSliceAdditionalSpecFns;

use crate::identity::{hex_digit, hex_lower, lemma_hex_digits};

verus! {

/// The value of a hex digit of either case, if `c` is one.
pub open spec fn hex_val(c: u8) -> Option<u8> {
    if 0x41 <= c <= 0x46 {
        Some((c - 0x37) as u8)
    } else if 0x61 <= c <= 0x66 {
        Some((c - 0x57) as u8)
    } else if 0x30 <= c <= 0x39 {
        Some((c - 0x30) as u8)
    } else {
        None
    }
}

/// Whether bytes are hex: an even number of hex digits.
pub open spec fn hex_decodes(d: Seq<u8>) -> bool {
    &&& d.len() % 2 == 0
    &&& forall|i: int| 0 <= i < d.len() ==> (#[trigger] hex_val(d[i])) is Some
}

/// The bytes that hex digits stand for, two digits per byte, high nibble
/// first.
pub open spec fn hex_decoded(d: Seq<u8>) -> Seq<u8> {
    Seq::new(
        (d.len() / 2) as nat,
        |i: int| ((hex_val(d[2 * i])->Some_0 << 4u8) | hex_val(d[2 * i + 1])->Some_0) as u8,
    )
}

/// `hex::decode(data)`: the bytes when `data` is an even number of hex
/// digits of either case, nothing otherwise.
#[verifier::external_body]
fn hex_decode(data: &[u8]) -> (res: Option<Vec<u8>>)
    ensures
        res is Some <==> hex_decodes(data@),
        res matches Some(b) ==> b@ == hex_decoded(data@),
{
    match hex::decode(data) {
        Ok(b) => Some(b),
        Err(_) => None,
    }
}

/// `hex::decode_to_slice(data, &mut [0u8; 32])`: the 32 bytes when `data`
/// is 64 hex digits of either case, nothing otherwise.
#[verifier::external_body]
fn hex_decode_32(data: &[u8]) -> (res: Option<[u8; 32]>)
    ensures
        res is Some <==> (hex_decodes(data@) && data@.len() == 64),
        res matches Some(b) ==> b@ == hex_decoded(data@),
{
    let mut out = [0u8; 32];
    match hex::decode_to_slice(data, &mut out) {
        Ok(()) => Some(out),
        Err(_) => None,
    }
}

/// Why what a vault holds is not a seed.
#[derive(Debug, Clone, Copy, PartialEq, Eq, Structural)]
pub enum SeedError {
    /// The variable is empty.
    Empty,
    /// The key file does not hold 64 characters.
    KeyLength,
    /// The text is not hex.
    InvalidHex,
    /// The hex does not stand for 32 bytes.
    SeedLength,
}

/// A hex digit's value: every digit that `hex_lower` writes reads back.
proof fn lemma_hex_digit_value(n: u8)
    requires
        n < 16,
    ensures
        hex_val(hex_digit(n) as u8) == Some(n),
        '\0' <= hex_digit(n) <= '\u{7f}',
{
}

/// A byte from its two nibbles.
proof fn lemma_nibbles(b: u8)
    ensures
        (((b >> 4u8) << 4u8) | (b & 0x0Fu8)) == b,
        b >> 4u8 < 16,
        b & 0x0Fu8 < 16,
{
    assert((((b >> 4u8) << 4u8) | (b & 0x0Fu8)) == b && b >> 4u8 < 16 && b & 0x0Fu8 < 16)
        by (bit_vector);
}

/// A key file round trip: the text `Identity::seed_hex` writes for a 32-byte
/// seed is 64 hex digits that stand for that seed, so `seed_from_key_file`
/// reads the seed back from it (and `Identity::from_seed` then gives the
/// same public key and identity hash).
pub proof fn lemma_key_file_roundtrip(text: &str, seed: Seq<u8>)
    requires
        seed.len() == 32,
        text@ == hex_lower(seed),
    ensures
        text.spec_bytes().len() == 64,
        hex_decodes(text.spec_bytes()),
        hex_decoded(text.spec_bytes()) == seed,
{
    lemma_hex_digits(seed);
    assert forall|i: int| 0 <= i < text@.len() implies '\0' <= #[trigger] text@[i] <= '\u{7f}'
        && hex_val(text@[i] as u8) is Some by {
        let k = i / 2;
        lemma_nibbles(seed[k]);
        if i % 2 == 0 {
            assert(i == 2 * k);
            lemma_hex_digit_value(seed[k] >> 4u8);
        } else {
            assert(i == 2 * k + 1);
            lemma_hex_digit_value(seed[k] & 0x0Fu8);
        }
    }
    assert(vstd::string::is_ascii(text));
    vstd::string::is_ascii_spec_bytes(text);
    let bytes = text.spec_bytes();
    assert(bytes.len() == 64);
    assert forall|i: int| 0 <= i < bytes.len() implies (#[trigger] hex_val(bytes[i])) is Some by {
        assert(bytes[i] == text@[i] as u8);
    }
    assert forall|k: int| 0 <= k < 32 implies #[trigger] hex_decoded(bytes)[k] == seed[k] by {
        lemma_nibbles(seed[k]);
        lemma_hex_digit_value(seed[k] >> 4u8);
        lemma_hex_digit_value(seed[k] & 0x0Fu8);
        assert(bytes[2 * k] == text@[2 * k] as u8);
        assert(bytes[2 * k + 1] == text@[2 * k + 1] as u8);
    }
    assert(hex_decoded(bytes) =~= seed);
}

/// A key file's (trimmed) contents as a seed: exactly 64 hex digits.
pub fn seed_from_key_file(hex_str: &str) -> (res: Result<[u8; 32], SeedError>)
    ensures
        match res {
            Ok(seed) => hex_str.spec_bytes().len() == 64 && hex_decodes(hex_str.spec_bytes())
                && seed@ == hex_decoded(hex_str.spec_bytes()),
            Err(e) => if hex_str.spec_bytes().len() != 64 {
                e == SeedError::KeyLength
            } else {
                !hex_decodes(hex_str.spec_bytes()) && e == SeedError::InvalidHex
            },
        },
{
    let bytes = hex_str.as_bytes();
    if bytes.len() != 64 {
        return Err(SeedError::KeyLength);
    }
    match hex_decode_32(bytes) {
        Some(seed) => Ok(seed),
        None => Err(SeedError::InvalidHex),
    }
}

/// An environment variable's value as a seed: non-empty hex that stands for
/// 32 bytes.
pub fn seed_from_env_value(value: &str) -> (res: Result<[u8; 32], SeedError>)
    ensures
        match res {
            Ok(seed) => hex_decodes(value.spec_bytes()) && hex_decoded(value.spec_bytes()).len()
                == 32 && seed@ == hex_decoded(value.spec_bytes()),
            Err(e) => if value@.len() == 0 {
                e == SeedError::Empty
            } else if !hex_decodes(value.spec_bytes()) {
                e == SeedError::InvalidHex
            } else {
                hex_decoded(value.spec_bytes()).len() != 32 && e == SeedError::SeedLength
            },
        },
{
    if value.is_empty() {
        return Err(SeedError::Empty);
    }
    let bytes = match hex_decode(value.as_bytes()) {
        Some(b) => b,
        None => {
            return Err(SeedError::InvalidHex);
        },
    };
    if bytes.len() != 32 {
        return Err(SeedError::SeedLength);
    }
    let mut seed = [0u8; 32];
    let mut i: usize = 0;
    while i < 32
        invariant
            bytes@.len() == 32,
            i <= 32,
            forall|k: int| 0 <= k < i ==> seed@[k] == bytes@[k],
        decreases 32 - i,
    {
        seed[i] = bytes[i];
        i = i + 1;
    }
    assert(seed@ =~= bytes@);
    Ok(seed)
}

/// A vault in the file system.
#[derive(Debug, Clone)]
pub struct FileVault {
    key_path: String,
}

impl FileVault {
    /// The key file's path.
    pub closed spec fn spec_key_path(&self) -> Seq<char> {
        self.key_path@
    }

    /// A vault whose key lives at `key_path`.
    pub fn new(key_path: &str) -> (res: Self)
        ensures
            res.spec_key_path() == key_path@,
    {
        FileVault { key_path: key_path.to_string() }
    }

    /// The key file's path.
    pub fn key_path(&self) -> (res: &str)
        ensures
            res@ == self.spec_key_path(),
    {
        self.key_path.as_str()
    }
}

/// A vault in an environment variable.
#[derive(Debug, Clone)]
pub struct EnvVault {
    var_name: String,
}

impl EnvVault {
    /// The variable's name.
    pub closed spec fn spec_var_name(&self) -> Seq<char> {
        self.var_name@
    }

    /// A vault whose key lives in the variable `var_name`.
    pub fn new(var_name: &str) -> (res: Self)
        ensures
            res.spec_var_name() == var_name@,
    {
        EnvVault { var_name: var_name.to_string() }
    }

    /// The variable's name.
    pub fn var_name(&self) -> (res: &str)
        ensures
            res@ == self.spec_var_name(),
    {
        self.var_name.as_str()
    }
}

/// A vault in a hardware security module, reached through its PKCS#11 URI.
/// The module itself is not driven yet: this backend holds its address.
#[derive(Debug, Clone)]
pub struct HsmVault {
    pkcs11_uri: String,
}

impl HsmVault {
    /// The module's PKCS#11 URI.
    pub closed spec fn spec_pkcs11_uri(&self) -> Seq<char> {
        self.pkcs11_uri@
    }

    /// A vault in the module at `pkcs11_uri`.
    pub fn new(pkcs11_uri: &str) -> (res: Self)
        ensures
            res.spec_pkcs11_uri() == pkcs11_uri@,
    {
        HsmVault { pkcs11_uri: pkcs11_uri.to_string() }
    }

    /// The module's PKCS#11 URI.
    pub fn pkcs11_uri(&self) -> (res: &str)
        ensures
            res@ == self.spec_pkcs11_uri(),
    {
        self.pkcs11_uri.as_str()
    }
}

} // verus!
