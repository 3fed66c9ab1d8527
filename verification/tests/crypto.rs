use aether_core::crypto::{
    compute_finished, derive_initial_key, derive_session_key, generate_connection_id,
    generate_path_nonce, verify_finished, x25519_dh, x25519_generate_keypair, AeadAlgorithm,
    AeadSession, DirectionalKeys, AEAD_KEY_LEN, AEAD_TAG_LEN,
};
use aether_core::Error;

#[test]
fn test_derive_initial_key() {
    let cid = b"test-cid-1234";
    let key1 = derive_initial_key(cid);
    let key2 = derive_initial_key(cid);
    assert_eq!(key1, key2);
    assert_eq!(key1.len(), AEAD_KEY_LEN);
}

#[test]
fn test_derive_initial_key_different_cid() {
    let key1 = derive_initial_key(b"cid-1");
    let key2 = derive_initial_key(b"cid-2");
    assert_ne!(key1, key2);
}

#[test]
fn test_directional_keys_encrypt_decrypt() {
    let secret = b"test-secret-key-material-32b";
    let mut keys = DirectionalKeys::derive(secret, b"test-label").unwrap();

    let plaintext = b"Hello, Aether!";
    let aad = b"additional-data";

    let ciphertext = keys.encrypt(plaintext, aad).unwrap();
    keys.packet_number = 0;
    let decrypted = keys.decrypt(&ciphertext, aad).unwrap();

    assert_eq!(decrypted, plaintext);
}

#[test]
fn test_tampered_ciphertext() {
    let secret = b"test-secret-key-material-32b";
    let keys = DirectionalKeys::derive(secret, b"test-label").unwrap();

    let plaintext = b"Secret data";
    let mut ciphertext = keys.encrypt(plaintext, b"").unwrap();

    ciphertext[0] ^= 0x01;

    let keys_dec = DirectionalKeys::derive(secret, b"test-label").unwrap();
    let result = keys_dec.decrypt(&ciphertext, b"");
    assert!(result.is_err());
}

#[test]
fn test_session_key_derivation() {
    let shared_secret = b"shared-secret-32-bytes-ok!!";
    let transcript = b"ClientHello||ServerHello";

    let key1 = derive_session_key(shared_secret, transcript).unwrap();
    let key2 = derive_session_key(shared_secret, transcript).unwrap();

    assert_eq!(key1, key2);
    assert_eq!(key1.len(), 32);
}

#[test]
fn test_session_key_different_transcript() {
    let shared_secret = b"shared-secret-32-bytes-ok!!";
    let key1 = derive_session_key(shared_secret, b"transcript-1").unwrap();
    let key2 = derive_session_key(shared_secret, b"transcript-2").unwrap();
    assert_ne!(key1, key2);
}

#[test]
fn test_finished_mac() {
    let session_key = [0xAB; 32];
    let transcript = b"full handshake transcript";

    let finished = compute_finished(&session_key, transcript);
    assert_eq!(finished.len(), 32);

    let result = verify_finished(&session_key, transcript, &finished);
    assert!(result.is_ok());
}

#[test]
fn test_finished_mac_tampered() {
    let session_key = [0xAB; 32];
    let transcript = b"full handshake transcript";
    let finished = compute_finished(&session_key, transcript);

    let result = verify_finished(&session_key, b"tampered transcript", &finished);
    assert!(result.is_err());
}

#[test]
fn test_aead_session() {
    let session_key = [0xCD; 32];
    let session = AeadSession::new(&session_key, AeadAlgorithm::Aes256Gcm).unwrap();

    let plaintext = b"Encrypted stream data";
    let ciphertext = session.client_tx.encrypt(plaintext, b"").unwrap();

    let session2 = AeadSession::new(&session_key, AeadAlgorithm::Aes256Gcm).unwrap();
    let decrypted = session2.client_tx.decrypt(&ciphertext, b"").unwrap();
    assert_eq!(decrypted, plaintext);
}

#[test]
fn test_x25519_key_exchange() {
    let (alice_public, alice_secret) = x25519_generate_keypair();
    let (bob_public, bob_secret) = x25519_generate_keypair();

    let alice_shared = x25519_dh(alice_secret, &bob_public);
    let bob_shared = x25519_dh(bob_secret, &alice_public);

    assert_eq!(alice_shared, bob_shared);
}

#[test]
fn test_generate_connection_id_unique() {
    let cid1 = generate_connection_id();
    let cid2 = generate_connection_id();
    assert_ne!(cid1, cid2);
}

#[test]
fn test_packet_number_nonce_rotation() {
    let secret = b"test-secret-key-material-32b";
    let mut keys = DirectionalKeys::derive(secret, b"test").unwrap();

    let ct1 = keys.encrypt(b"msg1", b"").unwrap();
    keys.packet_number += 1;
    let ct2 = keys.encrypt(b"msg2", b"").unwrap();

    assert_ne!(ct1, ct2);
}

// ── further cases ──

#[test]
fn initial_key_known_answer() {
    let key = derive_initial_key(b"test-cid-1234");
    assert_eq!(hex::encode(key), "f41c4607d7dbb2d80f9fcc19b7e46634e14c1620837a7bb5fe67884b17d5c8f9");
}

#[test]
fn session_key_known_answer() {
    let key = derive_session_key(b"shared-secret-32-bytes-ok!!", b"ClientHello||ServerHello").unwrap();
    assert_eq!(hex::encode(key), "7e8328316ee6a91eb2ce8c69f77691245a4aa47032ba3265fdc7c4d511d711b5");
}

#[test]
fn finished_mac_known_answer() {
    let finished = compute_finished(&[0xAB; 32], b"full handshake transcript");
    assert_eq!(hex::encode(finished), "5072921bfa16c862c8a11af7e3fea81b2a84eb3a48da3a30e957e6bbaee1d404");
}

#[test]
fn directional_keys_known_answer() {
    let keys = DirectionalKeys::derive(b"test-secret-key-material-32b", b"test-label").unwrap();
    assert_eq!(hex::encode(keys.tx_key), "2b1de3d85e8ef0cb3f57921dbad0ee91f43df58c02d06d0630cf0b38fc63cd34");
    assert_eq!(hex::encode(keys.tx_iv), "4a531deb966779d80b077a59");
    assert_eq!(keys.packet_number, 0);
}

#[test]
fn ciphertext_is_plaintext_plus_tag() {
    let keys = DirectionalKeys::derive(b"k", b"l").unwrap();
    let ct = keys.encrypt(b"twelve bytes", b"aad").unwrap();
    assert_eq!(ct.len(), 12 + AEAD_TAG_LEN);
    assert_ne!(&ct[..12], b"twelve bytes");
}

#[test]
fn decrypt_under_another_packet_number_fails() {
    let mut keys = DirectionalKeys::derive(b"k", b"l").unwrap();
    let ct = keys.encrypt(b"payload", b"").unwrap();
    keys.packet_number = 1;
    assert!(matches!(keys.decrypt(&ct, b""), Err(Error::Crypto(_))));
    keys.packet_number = 0;
    assert_eq!(keys.decrypt(&ct, b"").unwrap(), b"payload");
}

#[test]
fn decrypt_with_other_aad_or_short_input_fails() {
    let keys = DirectionalKeys::derive(b"k", b"l").unwrap();
    let ct = keys.encrypt(b"payload", b"aad-1").unwrap();
    assert!(keys.decrypt(&ct, b"aad-2").is_err());
    assert!(keys.decrypt(&ct[..15], b"aad-1").is_err());
}

#[test]
fn session_directions_match() {
    let key = [7u8; 32];
    let client = AeadSession::new(&key, AeadAlgorithm::Aes256Gcm).unwrap();
    let server = AeadSession::new(&key, AeadAlgorithm::Aes256Gcm).unwrap();
    let ct = client.tx_keys(true).encrypt(b"hi server", b"").unwrap();
    assert_eq!(server.rx_keys(false).decrypt(&ct, b"").unwrap(), b"hi server");
    let ct = server.tx_keys(false).encrypt(b"hi client", b"").unwrap();
    assert_eq!(client.rx_keys(true).decrypt(&ct, b"").unwrap(), b"hi client");
    // The two directions use different keys.
    assert_ne!(client.client_tx.tx_key, client.server_tx.tx_key);
}

#[test]
fn increment_tx_advances_the_sending_direction() {
    let mut session = AeadSession::new(&[1u8; 32], AeadAlgorithm::ChaCha20Poly1305).unwrap();
    session.increment_tx(true);
    assert_eq!(session.client_tx.packet_number, 1);
    assert_eq!(session.server_tx.packet_number, 0);
    session.increment_tx(false);
    session.increment_tx(false);
    assert_eq!(session.client_tx.packet_number, 1);
    assert_eq!(session.server_tx.packet_number, 2);
    // Receiving advances the other direction: the client receives with the
    // server's sending keys.
    session.increment_rx(true);
    assert_eq!(session.server_tx.packet_number, 3);
    assert_eq!(session.client_tx.packet_number, 1);
    assert_eq!(session.algorithm, AeadAlgorithm::ChaCha20Poly1305);
}

#[test]
fn verify_finished_error_is_crypto() {
    let result = verify_finished(&[0u8; 32], b"t", &[0u8; 32]);
    assert!(matches!(result, Err(Error::Crypto(_))));
}

#[test]
fn aead_algorithm_names() {
    assert_eq!(AeadAlgorithm::from_str("AES-256-GCM"), Some(AeadAlgorithm::Aes256Gcm));
    assert_eq!(AeadAlgorithm::from_str("aes-256-gcm"), Some(AeadAlgorithm::Aes256Gcm));
    assert_eq!(AeadAlgorithm::from_str("ChaCha20-Poly1305"), Some(AeadAlgorithm::ChaCha20Poly1305));
    assert_eq!(AeadAlgorithm::from_str("chacha20-poly1305"), Some(AeadAlgorithm::ChaCha20Poly1305));
    assert_eq!(AeadAlgorithm::from_str("aes"), None);
    for a in [AeadAlgorithm::Aes256Gcm, AeadAlgorithm::ChaCha20Poly1305] {
        assert_eq!(AeadAlgorithm::from_str(a.name()), Some(a));
    }
}

#[test]
fn path_nonces_differ() {
    assert_ne!(generate_path_nonce(), generate_path_nonce());
}
