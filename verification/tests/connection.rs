use aether_core::connection::{ConnectionState, ConnectionStats};
use aether_core::{CloseCode, Config, Connection, Error, Frame, FrameType, Identity, AETHER_DEFAULT_PORT, MAX_PAYLOAD_SIZE};

#[test]
fn test_connection_debug() {
    let rt = tokio::runtime::Builder::new_current_thread().build().unwrap();
    rt.block_on(async {
        let cfg = Config::default();
        assert_eq!(cfg.port, AETHER_DEFAULT_PORT);
        assert!(cfg.capabilities.multipath);
    });
}

#[test]
fn test_config_default() {
    let config = Config::default();
    assert_eq!(config.port, 9000);
    assert_eq!(config.capabilities.max_streams, 65536);
    assert_eq!(config.capabilities.max_stream_data, 1_048_576);
    assert_eq!(config.capabilities.idle_timeout_ms, 30_000);
}

// ── further cases ──

fn handshake() -> (Connection, Connection) {
    let server_id = Identity::from_seed([0x22; 32]);
    let config = Config::default();
    let mut client = Connection::new_client(0x1111_2222_3333_4444, config);
    let ch = client.client_hello().unwrap();
    let (hs, sh, sf) = Connection::server_hello(&ch, &server_id, &config).unwrap();
    client.on_server_hello(&sh).unwrap();
    let cf = client.on_server_finished(&sf).unwrap();
    let server = Connection::server_finished(hs, &cf, &server_id, &config).unwrap();
    (client, server)
}

#[test]
fn handshake_establishes_both_sides() {
    let (client, server) = handshake();
    assert!(client.is_active());
    assert!(server.is_active());
    assert_eq!(client.our_connection_id, 0x1111_2222);
    assert_eq!(server.peer_connection_id, Some(0x1111_2222));
    assert_eq!(client.peer_connection_id, Some(server.our_connection_id));
    let ck = client.handshake.as_ref().unwrap().session_key;
    let sk = server.handshake.as_ref().unwrap().session_key;
    assert!(ck.is_some());
    assert_eq!(ck, sk);
    assert_eq!(server.idle_timeout_ms, 30_000);
    assert!(server.identity.is_some());
    assert_eq!(client.stats, ConnectionStats::default());
}

#[test]
fn non_initial_first_packet_is_refused() {
    let server_id = Identity::from_seed([0x22; 32]);
    let wire = Frame::data(1, 2, 0, vec![1, 2, 3]).encode();
    let r = Connection::server_hello(&wire, &server_id, &Config::default());
    assert!(matches!(r, Err(Error::ProtocolViolation(_))));
}

#[test]
fn bad_finished_keeps_client_handshaking() {
    let server_id = Identity::from_seed([0x22; 32]);
    let config = Config::default();
    let mut client = Connection::new_client(7, config);
    let ch = client.client_hello().unwrap();
    let (_hs, sh, mut sf) = Connection::server_hello(&ch, &server_id, &config).unwrap();
    client.on_server_hello(&sh).unwrap();
    let last = sf.len() - 1;
    sf[last] ^= 0xFF;
    assert!(matches!(client.on_server_finished(&sf), Err(Error::Crypto(_))));
    assert_eq!(client.state, ConnectionState::Init);
    assert!(client.aead.is_none());
}

#[test]
fn sealing_needs_an_active_connection() {
    let client = Connection::new_client(9, Config::default());
    let f = Frame::data(2, 0, 0, vec![1]);
    assert!(matches!(client.seal_frame(&f), Err(Error::InvalidState(_))));
}

#[test]
fn sealed_packet_carries_the_frame() {
    let (client, _server) = handshake();
    let f = Frame::data(2, client.frame_connection_id(), 0, b"payload".to_vec());
    let sealed = client.seal_frame(&f).unwrap();
    assert_eq!(sealed.len(), f.encode().len() + 16);
    // Sealed under our send keys, with our own connection id and packet
    // number as associated data.
    let keys = client.aead.as_ref().unwrap().tx_keys(true);
    let mut aad = client.our_connection_id.to_be_bytes().to_vec();
    aad.extend_from_slice(&client.tx_packet_number.to_be_bytes());
    assert_eq!(keys.decrypt(&sealed, &aad).unwrap(), f.encode());
}

#[test]
fn open_datagram_counts_what_it_decodes() {
    let mut conn = Connection::new_client(9, Config::default());
    let f = Frame::ping(5);
    let wire = f.encode();
    let got = conn.open_datagram(&wire).unwrap();
    assert_eq!(got.header.frame_type, FrameType::Ping);
    assert_eq!(conn.stats.packets_received, 1);
    assert_eq!(conn.stats.bytes_received, wire.len() as u64);
    assert!(conn.open_datagram(&[1, 2, 3]).is_err());
    assert_eq!(conn.stats.packets_received, 1);
}

#[test]
fn open_datagram_under_the_session() {
    let (_client, mut server) = handshake();
    // A packet sealed with the server's receive keys and the sender's
    // connection id and packet number as associated data opens.
    let f = Frame::data(3, 0, 0, b"x".to_vec());
    let keys = server.aead.as_ref().unwrap().rx_keys(false);
    let mut aad = server.peer_connection_id.unwrap().to_be_bytes().to_vec();
    aad.extend_from_slice(&server.rx_packet_number.to_be_bytes());
    let sealed = keys.encrypt(&f.encode(), &aad).unwrap();
    let got = server.open_datagram(&sealed).unwrap();
    assert_eq!(got.payload, b"x".to_vec());
    assert_eq!(server.rx_packet_number, 1);
    assert_eq!(server.aead.as_ref().unwrap().rx_keys(false).packet_number, 1);
    // What does not open changes nothing.
    assert!(matches!(server.open_datagram(&f.encode()), Err(Error::Crypto(_))));
    assert_eq!(server.rx_packet_number, 1);
}

#[test]
fn packets_flow_under_per_packet_nonces() {
    let (mut client, mut server) = handshake();
    let f = Frame::data(2, client.frame_connection_id(), 0, b"same".to_vec());
    let first = client.seal_frame(&f).unwrap();
    client.record_sent(first.len());
    assert_eq!(client.tx_packet_number, 1);
    assert_eq!(client.aead.as_ref().unwrap().tx_keys(true).packet_number, 1);
    let second = client.seal_frame(&f).unwrap();
    client.record_sent(second.len());
    // The same frame goes out under a different nonce each time.
    assert_ne!(first, second);
    // The server opens them in order; a replay of the first does not open.
    assert_eq!(server.open_datagram(&first).unwrap().payload, b"same".to_vec());
    assert_eq!(server.open_datagram(&second).unwrap().payload, b"same".to_vec());
    assert!(matches!(server.open_datagram(&first), Err(Error::Crypto(_))));
    assert_eq!(server.rx_packet_number, 2);
    assert_eq!(server.stats.packets_received, 2);
    // And the other direction.
    let back = Frame::data(2, server.frame_connection_id(), 0, b"echo".to_vec());
    let sealed = server.seal_frame(&back).unwrap();
    server.record_sent(sealed.len());
    assert_eq!(client.open_datagram(&sealed).unwrap().payload, b"echo".to_vec());
}

#[test]
fn stream_data_is_cut_into_payload_sized_frames() {
    let (client, _server) = handshake();
    let data: Vec<u8> = (0..3000u32).map(|i| i as u8).collect();
    let frames = client.stream_data_frames(2, &data);
    assert_eq!(frames.len(), 3);
    assert_eq!(frames[0].payload.len(), MAX_PAYLOAD_SIZE);
    assert_eq!(frames[1].header.offset, MAX_PAYLOAD_SIZE as u32);
    assert_eq!(frames[2].payload.len(), 3000 - 2 * MAX_PAYLOAD_SIZE);
    assert_eq!(frames[2].header.offset, 2 * MAX_PAYLOAD_SIZE as u32);
    let joined: Vec<u8> = frames.iter().flat_map(|f| f.payload.clone()).collect();
    assert_eq!(joined, data);
    assert!(frames.iter().all(|f| f.header.connection_id == client.frame_connection_id()));
    assert!(client.stream_data_frames(2, &[]).is_empty());
}

#[test]
fn streams_and_close() {
    let (mut client, _server) = handshake();
    assert!(matches!(client.accept_stream(), Err(Error::InvalidState(_))));
    let sid = client.open_stream().unwrap();
    assert_eq!(sid, 2);
    assert_eq!(client.accept_stream().unwrap(), 2);
    let expected = client
        .seal_frame(&Frame::close(client.frame_connection_id(), CloseCode::NoError, "Connection closed"))
        .unwrap();
    // The Close packet is sealed while the connection is still active.
    let sealed = client.start_close(CloseCode::NoError).unwrap();
    assert_eq!(client.state, ConnectionState::Closing);
    assert_eq!(sealed, expected);
    // A closing connection sends nothing more.
    assert!(client.seal_frame(&Frame::ping(1)).is_err());
    client.finish_close();
    assert_eq!(client.state, ConnectionState::Closed);
}

#[test]
fn close_sends_a_close_packet_the_peer_opens() {
    let (mut client, server) = handshake();
    let mut aad = client.our_connection_id.to_be_bytes().to_vec();
    aad.extend_from_slice(&client.tx_packet_number.to_be_bytes());
    let sealed = client.start_close(CloseCode::CryptoError).unwrap();
    // The server's receive keys open what the client sealed.
    let keys = server.aead.as_ref().unwrap().rx_keys(false);
    let plain = keys.decrypt(&sealed, &aad).unwrap();
    let frame = Frame::decode(&plain).unwrap();
    assert_eq!(frame.header.frame_type, FrameType::Close);
    assert_eq!(frame.header.connection_id, server.our_connection_id);
    assert_eq!(frame.payload[0], CloseCode::CryptoError.to_u8());
    assert_eq!(&frame.payload[1..], b"Connection closed");
}

#[test]
fn close_before_the_handshake_fails() {
    let mut conn = Connection::new_client(9, Config::default());
    assert!(matches!(conn.start_close(CloseCode::NoError), Err(Error::InvalidState(_))));
    assert_eq!(conn.state, ConnectionState::Closing);
}

#[test]
fn queued_frames_come_first_in_first_out() {
    let mut conn = Connection::new_client(9, Config::default());
    assert!(conn.take_queued_frame().is_none());
    conn.incoming_frames.push(Frame::ping(1));
    conn.incoming_frames.push(Frame::ping(2));
    assert_eq!(conn.take_queued_frame().unwrap().header.connection_id, 1);
    assert_eq!(conn.take_queued_frame().unwrap().header.connection_id, 2);
    assert!(conn.take_queued_frame().is_none());
}

#[test]
fn record_sent_counts() {
    let mut conn = Connection::new_client(9, Config::default());
    conn.record_sent(100);
    conn.record_sent(20);
    assert_eq!(conn.stats.packets_sent, 2);
    assert_eq!(conn.stats.bytes_sent, 120);
}
