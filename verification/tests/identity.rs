use aether_core::Identity;

#[test]
fn test_generate_identity() {
    let id = Identity::generate();
    assert_eq!(id.hash().len(), 32);
    assert!(id.hash_hex().len() == 64);
}

#[test]
fn test_from_seed_reproducible() {
    let seed = [42u8; 32];
    let id1 = Identity::from_seed(seed);
    let id2 = Identity::from_seed(seed);
    assert_eq!(id1.hash(), id2.hash());
    assert_eq!(id1.public_key_bytes(), id2.public_key_bytes());
}

#[test]
fn test_sign_and_verify() {
    let id = Identity::generate();
    let message = b"Aether handshake transcript";
    let signature = id.sign(message);

    let result = Identity::verify(&id.public_key_bytes(), message, &signature);
    assert!(result.is_ok());
}

#[test]
fn test_verify_wrong_message() {
    let id = Identity::generate();
    let signature = id.sign(b"original message");
    let result = Identity::verify(&id.public_key_bytes(), b"tampered message", &signature);
    assert!(result.is_err());
}

#[test]
fn test_identity_display() {
    let seed = [1u8; 32];
    let id = Identity::from_seed(seed);
    let display = id.hash_hex();
    assert_eq!(display.len(), 64);
    assert!(display.chars().all(|c| c.is_ascii_hexdigit()));
}

#[test]
fn test_verify_hash() {
    let id = Identity::generate();
    let pk = id.public_key_bytes();
    let ih = id.hash();

    let result = Identity::verify_hash(&pk, ih);
    assert!(result.is_ok());
    assert!(result.unwrap());
}

#[test]
fn test_verify_hash_mismatch() {
    let id1 = Identity::generate();
    let id2 = Identity::generate();
    let result = Identity::verify_hash(&id1.public_key_bytes(), id2.hash());
    assert!(result.is_ok());
    assert!(!result.unwrap());
}

#[test]
fn test_unique_identities() {
    let id1 = Identity::generate();
    let id2 = Identity::generate();
    assert_ne!(id1.hash(), id2.hash());
}

#[test]
fn test_equality() {
    let seed = [99u8; 32];
    let id1 = Identity::from_seed(seed);
    let id2 = Identity::from_seed(seed);
    assert!(id1 == id2);
}

// ── further cases ──

#[test]
fn rfc8032_public_key_and_signature() {
    // RFC 8032, section 7.1, TEST 1.
    let seed: [u8; 32] =
        hex::decode("9d61b19deffd5a60ba844af492ec2cc44449c5697b326919703bac031cae7f60").unwrap().try_into().unwrap();
    let id = Identity::from_seed(seed);
    assert_eq!(
        hex::encode(id.public_key_bytes()),
        "d75a980182b10ab7d54bfed3c964073a0ee172f3daa62325af021a68f707511a"
    );
    assert_eq!(
        hex::encode(id.sign(b"")),
        "e5564300c360ac729086e2cc806e828a84877f1eb8e5d974d873e065224901555fb8821590a33bacc61e39701cf9b46bd25bf5f0595bbe24655141438e7a100b"
    );
}

#[test]
fn identity_hash_is_sha256_of_prefixed_key() {
    let seed: [u8; 32] =
        hex::decode("9d61b19deffd5a60ba844af492ec2cc44449c5697b326919703bac031cae7f60").unwrap().try_into().unwrap();
    let id = Identity::from_seed(seed);
    // SHA-256("AETHER-ID-" || d75a98...511a)
    assert_eq!(id.hash_hex(), "2aed3815b1856ebf4af972c6988bdafde7777199d71597ed3c39536f1a7f3f11");
    assert_eq!(id.hash_hex(), hex::encode(id.hash()));
}

#[test]
fn public_key_is_not_the_seed() {
    let id = Identity::from_seed([5u8; 32]);
    assert_ne!(id.public_key_bytes(), [5u8; 32]);
}

#[test]
fn verify_rejects_a_key_that_does_not_decompress() {
    let id = Identity::from_seed([3u8; 32]);
    let sig = id.sign(b"m");
    // y = 2 is not the y-coordinate of a curve point.
    let mut bad = [0u8; 32];
    bad[0] = 2;
    assert!(matches!(Identity::verify(&bad, b"m", &sig), Err(aether_core::Error::Crypto(_))));
    assert!(Identity::verify_hash(&bad, id.hash()).is_err());
}

#[test]
fn signatures_are_deterministic_and_differ_per_message() {
    let id = Identity::from_seed([8u8; 32]);
    assert_eq!(id.sign(b"a"), id.sign(b"a"));
    assert_ne!(id.sign(b"a"), id.sign(b"b"));
}

#[test]
fn clone_keeps_identity() {
    let id = Identity::from_seed([9u8; 32]);
    let copy = id.clone();
    assert!(copy == id);
    assert_eq!(copy.public_key_bytes(), id.public_key_bytes());
    assert_eq!(copy.sign(b"x"), id.sign(b"x"));
}
