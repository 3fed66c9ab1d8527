use aether_core::discovery::{
    discovery_action, distance_order, dht_key, dht_record_expired, xor_distance, DiscoveryAction,
    DiscoveryMessageType, DiscoveryPacket,
};
use aether_core::Error;
use DiscoveryMessageType::{Announce, Goodbye, Query, Response};

#[test]
fn test_dht_key() {
    let key1 = dht_key("test-identity");
    let key2 = dht_key("test-identity");
    assert_eq!(key1, key2);

    let key3 = dht_key("other-identity");
    assert_ne!(key1, key3);
}

#[test]
fn test_xor_distance() {
    let a = [0x00u8; 32];
    let b = [0xFFu8; 32];
    let dist = xor_distance(&a, &b);
    assert_eq!(dist, [0xFFu8; 32]);

    let same_dist = xor_distance(&a, &a);
    assert_eq!(same_dist, [0x00u8; 32]);
}

// ── further cases ──

#[test]
fn dht_key_known_answer() {
    assert_eq!(
        hex::encode(dht_key("test-identity")),
        "1b50e9718c12dc33dd5f12ee7aa1f58245243e7eb1be45420e401987a629d0ae"
    );
}

#[test]
fn discovery_packet_roundtrip() {
    let packet = DiscoveryPacket::new(DiscoveryMessageType::Announce, b"{\"k\":1}".to_vec());
    let bytes = packet.encode();
    assert_eq!(&bytes[..6], &[0x41, 0x45, 0x44, 0x24, 0x01, 0x00]);
    let decoded = DiscoveryPacket::decode(&bytes).unwrap();
    assert_eq!(decoded.magic, *b"AED$");
    assert_eq!(decoded.msg_type, DiscoveryMessageType::Announce);
    assert_eq!(decoded.version, 0);
    assert_eq!(decoded.peer_info, b"{\"k\":1}".to_vec());
}

#[test]
fn discovery_query_roundtrip() {
    let bytes = DiscoveryPacket::new(DiscoveryMessageType::Query, Vec::new()).encode();
    let decoded = DiscoveryPacket::decode(&bytes).unwrap();
    assert_eq!(decoded.msg_type, DiscoveryMessageType::Query);
    assert!(decoded.peer_info.is_empty());
}

#[test]
fn discovery_decode_errors() {
    assert!(matches!(DiscoveryPacket::decode(b"AED$\x01"), Err(Error::ProtocolViolation(_))));
    assert!(matches!(DiscoveryPacket::decode(b"AEDX\x01\x00"), Err(Error::ProtocolViolation(_))));
    assert!(matches!(DiscoveryPacket::decode(b"AED$\x05\x00"), Err(Error::ProtocolViolation(_))));
    assert!(DiscoveryPacket::decode(b"AED$\x04\x00").is_ok());
}

#[test]
fn message_type_codes() {
    for (t, c) in [
        (DiscoveryMessageType::Announce, 1u8),
        (DiscoveryMessageType::Query, 2),
        (DiscoveryMessageType::Response, 3),
        (DiscoveryMessageType::Goodbye, 4),
    ] {
        assert_eq!(t.to_u8(), c);
        assert_eq!(DiscoveryMessageType::from_u8(c), Some(t));
    }
    assert_eq!(DiscoveryMessageType::from_u8(0), None);
}

#[test]
fn discovery_actions() {
    assert_eq!(discovery_action(Announce, "peer", "me"), DiscoveryAction::Cache);
    assert_eq!(discovery_action(Announce, "me", "me"), DiscoveryAction::Ignore);
    assert_eq!(discovery_action(Response, "peer", "me"), DiscoveryAction::Cache);
    assert_eq!(discovery_action(Response, "me", "me"), DiscoveryAction::Ignore);
    assert_eq!(discovery_action(Query, "me", "me"), DiscoveryAction::Reply);
    assert_eq!(discovery_action(Goodbye, "peer", "me"), DiscoveryAction::Remove);
}

#[test]
fn dht_record_expiry_by_time() {
    assert!(dht_record_expired(1000, 0, 1000));
    assert!(!dht_record_expired(1000, 3600, 1000));
    assert!(dht_record_expired(1000, 3600, 4600));
    assert!(!dht_record_expired(1000, 3600, 4599));
}

#[test]
fn distance_order_reads_high_bytes() {
    let mut d = [0u8; 32];
    d[0] = 0x12;
    d[1] = 0x34;
    d[2] = 0x56;
    d[3] = 0x78;
    d[4] = 0xFF;
    assert_eq!(distance_order(&d), 0x12345678);
    let a = dht_key("a");
    let b = dht_key("b");
    assert_eq!(xor_distance(&a, &b), xor_distance(&b, &a));
}
