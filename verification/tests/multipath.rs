use aether_core::multipath::PathManager;
use aether_core::{Error, ExtType, Extension, Frame};
/// An address: IPv4 127.0.0.1 and a port.
type Addr = ([u8; 4], u16);

fn make_addr(port: u16) -> Addr {
    ([127, 0, 0, 1], port)
}

#[test]
fn test_path_lifecycle() {
    let mut pm = PathManager::new(0xABCD, 4);

    let primary = pm.register_primary(make_addr(9000), make_addr(9001), 0);
    assert_eq!(primary, 0);

    let (_challenge, path_id) = pm.create_path_challenge(make_addr(10000), make_addr(10001), 0).unwrap();
    assert!(path_id > 0);

    let response = Frame::path_response(0, path_id, {
        let path = pm.get_path(path_id).unwrap();
        path.challenge_nonce.unwrap()
    });
    let confirmed = pm.handle_path_response(&response, 1).unwrap();
    assert_eq!(confirmed, path_id);

    let active = pm.active_paths();
    assert_eq!(active.len(), 2);
}

#[test]
fn test_handle_path_challenge() {
    let mut pm = PathManager::new(0xABCD, 4);

    let challenge = Frame::path_challenge(0, 5, 0xDEADBEEF);
    let (_response, path_id) = pm.handle_path_challenge(&challenge, make_addr(20001), make_addr(20000), 0).unwrap();

    assert_eq!(path_id, 5);
    assert!(pm.get_path(5).unwrap().active);
}

#[test]
fn test_timeout_deactivation() {
    let mut pm = PathManager::new(0xABCD, 4);
    pm.register_primary(make_addr(9000), make_addr(9001), 100);

    pm.check_timeouts(0, 101);

    assert!(pm.active_paths().is_empty());
}

#[test]
fn test_max_paths() {
    let mut pm = PathManager::new(0xABCD, 2);
    pm.register_primary(make_addr(9000), make_addr(9001), 0);

    pm.create_path_challenge(make_addr(10000), make_addr(10001), 0).unwrap();
    let result = pm.create_path_challenge(make_addr(20000), make_addr(20001), 0);
    assert!(result.is_err());
}

// ── further cases ──

#[test]
fn challenge_frame_names_path_and_nonce() {
    let mut pm = PathManager::new(0x1122_3344_5566_7788, 4);
    let (challenge, id) = pm.create_path_challenge(make_addr(1), make_addr(2), 7).unwrap();
    assert_eq!(id, 1);
    assert_eq!(challenge.header.connection_id, 0x1122_3344);
    assert_eq!(challenge.extensions.len(), 1);
    assert_eq!(challenge.extensions[0].ext_type, ExtType::PathId);
    assert_eq!(challenge.extensions[0].value, vec![1]);
    let path = pm.get_path(1).unwrap();
    assert!(!path.active);
    assert_eq!(challenge.payload, path.challenge_nonce.unwrap().to_be_bytes().to_vec());
    assert_eq!(path.last_active_ms, 7);
}

#[test]
fn wrong_nonce_is_refused_and_changes_nothing() {
    let mut pm = PathManager::new(1, 4);
    let (_c, id) = pm.create_path_challenge(make_addr(1), make_addr(2), 0).unwrap();
    let nonce = pm.get_path(id).unwrap().challenge_nonce.unwrap();
    let wrong = Frame::path_response(0, id, nonce ^ 1);
    assert!(matches!(pm.handle_path_response(&wrong, 5), Err(Error::Crypto(_))));
    assert!(!pm.get_path(id).unwrap().active);
    assert_eq!(pm.get_path(id).unwrap().challenge_nonce, Some(nonce));
    let right = Frame::path_response(0, id, nonce);
    assert_eq!(pm.handle_path_response(&right, 5).unwrap(), id);
    let path = pm.get_path(id).unwrap();
    assert!(path.active);
    assert_eq!(path.challenge_nonce, None);
    assert_eq!(path.last_active_ms, 5);
}

#[test]
fn responses_that_name_no_known_path_are_refused() {
    let mut pm: PathManager<Addr> = PathManager::new(1, 4);
    let unknown = Frame::path_response(0, 9, 1);
    assert!(matches!(pm.handle_path_response(&unknown, 0), Err(Error::ProtocolViolation(_))));
    let no_ext = Frame::data(0, 0, 0, vec![0; 8]);
    assert!(matches!(pm.handle_path_response(&no_ext, 0), Err(Error::ProtocolViolation(_))));
    let mut empty_ext = Frame::data(0, 0, 0, vec![0; 8]);
    empty_ext.add_extension(Extension::new(ExtType::PathId, vec![]));
    assert!(matches!(pm.handle_path_response(&empty_ext, 0), Err(Error::ProtocolViolation(_))));
    let mut short = Frame::data(0, 0, 0, vec![0; 7]);
    short.add_extension(Extension::new(ExtType::PathId, vec![9]));
    assert!(matches!(
        pm.handle_path_challenge(&short, make_addr(1), make_addr(2), 0),
        Err(Error::ProtocolViolation(_))
    ));
}

#[test]
fn challenge_on_known_path_updates_remote() {
    let mut pm = PathManager::new(1, 4);
    pm.register_primary(make_addr(1), make_addr(2), 0);
    pm.deactivate_path(0);
    assert!(pm.active_paths().is_empty());
    let challenge = Frame::path_challenge(0, 0, 42);
    let (response, id) = pm.handle_path_challenge(&challenge, make_addr(3), make_addr(4), 9).unwrap();
    assert_eq!(id, 0);
    assert_eq!(response.payload, 42u64.to_be_bytes().to_vec());
    let path = pm.get_path(0).unwrap();
    assert!(path.active);
    assert_eq!(path.remote_addr, make_addr(3));
    assert_eq!(path.local_addr, make_addr(1));
    assert_eq!(path.last_active_ms, 9);
}

#[test]
fn counters_and_timeouts() {
    let mut pm = PathManager::new(1, 4);
    pm.register_primary(make_addr(1), make_addr(2), 0);
    pm.record_send(0, 50);
    pm.record_send(0, 60);
    pm.record_loss(0);
    pm.set_rtt(0, 1234);
    pm.record_send(7, 70);
    let p = pm.get_path(0).unwrap();
    assert_eq!(p.packets_sent, 2);
    assert_eq!(p.packets_lost, 1);
    assert_eq!(p.rtt_us, 1234);
    assert_eq!(p.last_active_ms, 60);
    pm.check_timeouts(100, 160);
    assert_eq!(pm.active_paths(), vec![0]);
    pm.check_timeouts(100, 161);
    assert!(pm.active_paths().is_empty());
    // A clock that reads earlier counts as no idle time.
    let mut pm2 = PathManager::new(1, 4);
    pm2.register_primary(make_addr(1), make_addr(2), 500);
    pm2.check_timeouts(0, 10);
    assert_eq!(pm2.active_paths(), vec![0]);
}
