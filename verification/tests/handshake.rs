use aether_core::crypto::x25519_generate_keypair;
use aether_core::handshake::{
    Capabilities, ClientHello, HandshakeContext, HandshakeState, ServerHello,
};
use aether_core::{Error, Frame, FrameType, Identity, AETHER_VERSION};

#[test]
fn test_client_hello_encode_decode() {
    let id = Identity::generate();
    let hello = ClientHello::new(0xABCD, [0x42; 32], &id, Capabilities::default());

    let encoded = hello.encode();
    let decoded = ClientHello::decode(&encoded).unwrap();

    assert_eq!(decoded.version, AETHER_VERSION);
    assert_eq!(decoded.connection_id, 0xABCD);
    assert_eq!(decoded.x25519_public, [0x42; 32]);
    assert_eq!(decoded.identity, *id.hash());
    assert_eq!(decoded.capabilities.multipath, true);
}

#[test]
fn test_server_hello_encode_decode() {
    let id = Identity::generate();
    let transcript = b"test transcript";
    let hello = ServerHello::new(0x1234, 0x5678, [0x99; 32], &id, transcript, Capabilities::default());

    let encoded = hello.encode();
    let decoded = ServerHello::decode(&encoded).unwrap();

    assert_eq!(decoded.source_connection_id, 0x1234);
    assert_eq!(decoded.dest_connection_id, 0x5678);
    assert_eq!(decoded.x25519_public, [0x99; 32]);

    let proof_bytes: [u8; 64] =
        decoded.identity_proof.as_slice().try_into().expect("signature must be 64 bytes");
    let result = Identity::verify(&decoded.identity_public_key, transcript, &proof_bytes);
    assert!(result.is_ok());
}

#[test]
fn test_full_handshake() {
    let client_id = Identity::generate();
    let server_id = Identity::generate();

    let mut client_ctx = HandshakeContext::new_client(0xAAAA);
    let mut server_ctx = HandshakeContext::new_server();

    let ch_frame = client_ctx.create_client_hello(&client_id, &Capabilities::default()).unwrap();

    let sh_frame = server_ctx
        .handle_client_hello(&ch_frame, &server_id, &Capabilities::default())
        .unwrap();

    client_ctx.handle_server_hello(&sh_frame).unwrap();

    let _cf_frame = client_ctx
        .handle_finished_and_respond(&Frame::new_long(FrameType::Handshake, 0, 0, 0, b"dummy".to_vec()))
        .unwrap_err();

    let sf_frame = server_ctx.create_finished().unwrap();

    let cf_frame = client_ctx.handle_finished_and_respond(&sf_frame).unwrap();
    assert_eq!(client_ctx.state, HandshakeState::Complete);

    server_ctx.verify_finished(&cf_frame).unwrap();
    assert_eq!(server_ctx.state, HandshakeState::Complete);

    assert_eq!(client_ctx.session_key, server_ctx.session_key);
}

#[test]
fn test_capabilities_negotiation() {
    let client_id = Identity::generate();
    let server_id = Identity::generate();
    let mut client_ctx = HandshakeContext::new_client(0xAAAA);
    let mut server_ctx = HandshakeContext::new_server();

    let client_caps = Capabilities {
        multipath: true,
        max_streams: 1000,
        max_stream_data: 1_000_000,
        ack_frequency: 2,
        idle_timeout_ms: 60_000,
    };

    let server_caps = Capabilities {
        multipath: false,
        max_streams: 500,
        max_stream_data: 2_000_000,
        ack_frequency: 1,
        idle_timeout_ms: 30_000,
    };

    let ch = client_ctx.create_client_hello(&client_id, &client_caps).unwrap();
    let _sh = server_ctx.handle_client_hello(&ch, &server_id, &server_caps).unwrap();

    let negotiated = server_ctx.capabilities.unwrap();
    assert_eq!(negotiated.multipath, false);
    assert_eq!(negotiated.max_streams, 500);
    assert_eq!(negotiated.max_stream_data, 1_000_000);
    assert_eq!(negotiated.idle_timeout_ms, 30_000);
}

#[test]
fn test_version_mismatch() {
    let client_id = Identity::generate();
    let server_id = Identity::generate();
    let _client_ctx = HandshakeContext::new_client(0xAAAA);
    let mut server_ctx = HandshakeContext::new_server();

    let (public, _secret) = x25519_generate_keypair();
    let mut hello = ClientHello::new(0xAAAA, public, &client_id, Capabilities::default());
    hello.version = 5;
    hello.supported_versions = vec![5];

    let hello_data = hello.encode();
    let frame = Frame::new_long(FrameType::Initial, 0, 0, 0xAAAA, hello_data);

    let result = server_ctx.handle_client_hello(&frame, &server_id, &Capabilities::default());
    assert!(result.is_err());
    match result {
        Err(Error::VersionNegotiation(_)) => {}
        _ => panic!("Expected VersionNegotiation error"),
    }
}

// ── further cases ──

#[test]
fn default_capabilities() {
    let c = Capabilities::default();
    assert!(c.multipath);
    assert_eq!(c.max_streams, 65536);
    assert_eq!(c.max_stream_data, 1_048_576);
    assert_eq!(c.ack_frequency, 2);
    assert_eq!(c.idle_timeout_ms, 30_000);
}

#[test]
fn client_hello_layout_and_roundtrip() {
    let id = Identity::from_seed([4u8; 32]);
    let caps = Capabilities { multipath: false, max_streams: 7, max_stream_data: 9, ack_frequency: 3, idle_timeout_ms: 11 };
    let mut hello = ClientHello::new(0x0102030405060708, [0x11; 32], &id, caps);
    hello.supported_versions = vec![0, 1, 2];
    hello.aead = aether_core::crypto::AeadAlgorithm::ChaCha20Poly1305;
    let bytes = hello.encode();
    assert_eq!(bytes.len(), 129 + 3);
    assert_eq!(&bytes[..13], &[0, 1, 2, 3, 4, 5, 6, 7, 8, 3, 0, 1, 2]);
    assert_eq!(bytes[13], 0x01);
    let decoded = ClientHello::decode(&bytes).unwrap();
    assert_eq!(decoded.supported_versions, vec![0, 1, 2]);
    assert_eq!(decoded.aead, aether_core::crypto::AeadAlgorithm::ChaCha20Poly1305);
    assert_eq!(decoded.identity_public_key, id.public_key_bytes());
    assert_eq!(decoded.capabilities, caps);
}

#[test]
fn client_hello_short_or_unknown_aead_is_refused() {
    assert!(matches!(ClientHello::decode(&[0u8; 79]), Err(Error::ProtocolViolation(_))));
    let id = Identity::from_seed([4u8; 32]);
    let mut bytes = ClientHello::new(1, [0; 32], &id, Capabilities::default()).encode();
    // One supported version: the AEAD byte is at 10 + 1.
    bytes[11] = 0x07;
    assert!(matches!(ClientHello::decode(&bytes), Err(Error::ProtocolViolation(_))));
}

#[test]
fn server_hello_roundtrip_and_length() {
    let id = Identity::from_seed([6u8; 32]);
    let hello = ServerHello::new(1, 2, [3; 32], &id, b"t", Capabilities::default());
    let bytes = hello.encode();
    assert_eq!(bytes.len(), 137 + 64);
    let decoded = ServerHello::decode(&bytes).unwrap();
    assert_eq!(decoded.identity_proof, hello.identity_proof);
    assert_eq!(decoded.identity, *id.hash());
    assert_eq!(decoded.capabilities, Capabilities::default());
    assert_eq!(decoded.identity_proof, id.sign(b"t").to_vec());
}

#[test]
fn server_hello_with_bad_proof_is_refused() {
    let client_id = Identity::from_seed([1u8; 32]);
    let server_id = Identity::from_seed([2u8; 32]);
    let mut client = HandshakeContext::new_client(0x5555);
    let mut server = HandshakeContext::new_server();
    let ch = client.create_client_hello(&client_id, &Capabilities::default()).unwrap();
    let mut sh = server.handle_client_hello(&ch, &server_id, &Capabilities::default()).unwrap();
    // Flip a byte of the signature (after 1 + 8 + 8 + 96 + 2 bytes).
    sh.payload[115] ^= 0x01;
    let transcript_before = client.transcript.clone();
    assert!(matches!(client.handle_server_hello(&sh), Err(Error::Crypto(_))));
    assert_eq!(client.transcript, transcript_before);
    assert!(client.session_key.is_none());
    assert_eq!(client.state, HandshakeState::HelloSent);
    // The peer's details were recorded before the check.
    assert!(client.peer_connection_id.is_some());
}

#[test]
fn finished_without_session_key_is_invalid_state() {
    let ctx = HandshakeContext::new_server();
    assert!(matches!(ctx.create_finished(), Err(Error::InvalidState(_))));
    let mut ctx = HandshakeContext::new_client(1);
    let f = Frame::new_long(FrameType::Handshake, 0, 0, 0, vec![0; 32]);
    assert!(matches!(ctx.verify_finished(&f), Err(Error::InvalidState(_))));
    assert!(matches!(ctx.handle_finished_and_respond(&f), Err(Error::InvalidState(_))));
    assert_eq!(ctx.state, HandshakeState::Initial);
}

#[test]
fn transcripts_and_finished_agree() {
    let client_id = Identity::from_seed([1u8; 32]);
    let server_id = Identity::from_seed([2u8; 32]);
    let mut client = HandshakeContext::new_client(0x0123_4567_89AB_CDEF);
    let mut server = HandshakeContext::new_server();
    let ch = client.create_client_hello(&client_id, &Capabilities::default()).unwrap();
    assert_eq!(ch.header.frame_type, FrameType::Initial);
    assert_eq!(ch.header.connection_id, 0x0123_4567);
    assert_eq!(ch.long_header.unwrap().source_connection_id, 0x0123_4567_89AB_CDEF);
    let sh = server.handle_client_hello(&ch, &server_id, &Capabilities::default()).unwrap();
    assert_eq!(server.peer_connection_id, Some(0x0123_4567_89AB_CDEF));
    assert_eq!(server.peer_identity, Some(*client_id.hash()));
    assert_eq!(sh.header.connection_id, 0x0123_4567);
    client.handle_server_hello(&sh).unwrap();
    assert_eq!(client.transcript, server.transcript);
    assert_eq!(client.peer_identity, Some(*server_id.hash()));
    assert_eq!(client.capabilities, server.capabilities);
    let sf = server.create_finished().unwrap();
    assert_eq!(sf.payload.len(), 32);
    let cf = client.handle_finished_and_respond(&sf).unwrap();
    assert_eq!(cf.payload, sf.payload);
    server.verify_finished(&cf).unwrap();
}
