use aether_core::stream::{FlowControl, StreamManager};
use aether_core::{Stream, StreamState};

#[test]
fn test_stream_lifecycle() {
    let mut stream = Stream::new(2, true, 1024 * 1024);
    assert_eq!(stream.state, StreamState::Open);
    assert!(stream.state.can_write());
    assert!(stream.state.can_read());

    stream.close_write();
    assert_eq!(stream.state, StreamState::HalfClosedLocal);
    assert!(!stream.state.can_write());
    assert!(stream.state.can_read());

    stream.close_read();
    assert_eq!(stream.state, StreamState::Closed);
    assert!(stream.state.is_closed());
}

#[test]
fn test_stream_write_read() {
    let mut stream = Stream::new(4, false, 1024);

    let offset = stream.write(b"hello".to_vec()).unwrap();
    assert_eq!(offset, 0);

    let offset = stream.write(b" world".to_vec()).unwrap();
    assert_eq!(offset, 5);

    stream.receive_data(0, b"hello".to_vec());
    stream.receive_data(5, b" world".to_vec());

    let data = stream.read(1024).unwrap();
    assert_eq!(data, b"hello world");
}

#[test]
fn test_stream_read_with_gap() {
    let mut stream = Stream::new(6, true, 1024);

    stream.receive_data(5, b"world".to_vec());

    let data = stream.read(1024).unwrap();
    assert!(data.is_empty());

    stream.receive_data(0, b"hello".to_vec());
    let data = stream.read(1024).unwrap();
    assert_eq!(data, b"helloworld");
}

#[test]
fn test_stream_flow_control() {
    let mut stream = Stream::new(8, true, 100);

    assert!(stream.write(vec![0u8; 50]).is_ok());
    assert!(stream.write(vec![0u8; 50]).is_ok());
    assert!(stream.write(vec![0u8; 1]).is_err());
}

#[test]
fn test_stream_manager_open_close() {
    let mut sm = StreamManager::new(true, 100, 1024 * 1024, 16 * 1024 * 1024);

    let sid = sm.open_stream().unwrap();
    assert_eq!(sid, 2);
    assert!(sm.has_stream(sid));

    let sid2 = sm.open_stream().unwrap();
    assert_eq!(sid2, 4);

    assert_eq!(sm.stream_count(), 2);

    sm.shutdown_stream(sid2).unwrap();
    assert!(!sm.has_stream(sid2));
}

#[test]
fn test_stream_manager_accept() {
    let mut sm = StreamManager::new(false, 100, 1024 * 1024, 16 * 1024 * 1024);

    sm.accept_stream(2).unwrap();
    assert!(sm.has_stream(2));

    let stream = sm.get_stream(2).unwrap();
    assert_eq!(stream.state, StreamState::Open);
}

#[test]
fn test_stream_manager_max_streams() {
    let mut sm = StreamManager::new(true, 2, 1024, 1024 * 1024);

    sm.open_stream().unwrap();
    sm.open_stream().unwrap();
    assert!(sm.open_stream().is_err());
}

#[test]
fn test_readable_streams() {
    let mut sm = StreamManager::new(true, 100, 1024, 1024 * 1024);

    let sid = sm.open_stream().unwrap();
    let sid2 = sm.open_stream().unwrap();

    {
        let stream = sm.get_stream_mut(sid).unwrap();
        stream.receive_data(0, b"data".to_vec());
    }

    let readable = sm.readable_streams();
    assert_eq!(readable.len(), 1);
    assert!(readable.contains(&sid));
    assert!(!readable.contains(&sid2));
}

#[test]
fn test_flow_control_update() {
    let mut fc = FlowControl::new(100);
    assert_eq!(fc.available_window(), 100);

    fc.reserve_send(50);
    assert_eq!(fc.available_window(), 50);

    fc.update_window(200);
    assert_eq!(fc.available_window(), 150);
}

// ── further cases ──

#[test]
fn read_stops_at_max_len_boundary() {
    let mut stream = Stream::new(2, true, 1024);
    stream.receive_data(0, b"abc".to_vec());
    stream.receive_data(3, b"def".to_vec());
    // Whole fragments are taken until at least max_len bytes are collected.
    let data = stream.read(2).unwrap();
    assert_eq!(data, b"abc");
    // The next read resumes at offset 3, where the last one stopped.
    assert_eq!(stream.read_offset, 3);
    let data = stream.read(10).unwrap();
    assert_eq!(data, b"def");
    assert_eq!(stream.read_offset, 6);
}

#[test]
fn reads_resume_at_the_delivered_offset() {
    let mut stream = Stream::new(2, true, 1024);
    stream.receive_data(0, b"hello".to_vec());
    assert_eq!(stream.read(1024).unwrap(), b"hello".to_vec());
    stream.receive_data(5, b"world".to_vec());
    assert_eq!(stream.read(1024).unwrap(), b"world".to_vec());
    // A gap after the delivered offset holds the data back until it fills.
    stream.receive_data(13, b"!".to_vec());
    assert!(stream.read(1024).unwrap().is_empty());
    stream.receive_data(10, b"abc".to_vec());
    assert_eq!(stream.read(1024).unwrap(), b"abc!".to_vec());
}

#[test]
fn read_after_read_side_closed_fails() {
    let mut stream = Stream::new(2, true, 1024);
    stream.close_read();
    assert_eq!(stream.state, StreamState::HalfClosedRemote);
    assert!(matches!(stream.read(10), Err(aether_core::Error::InvalidState(_))));
}

#[test]
fn write_after_write_side_closed_fails() {
    let mut stream = Stream::new(2, true, 1024);
    stream.close_write();
    assert!(matches!(stream.write(vec![1]), Err(aether_core::Error::InvalidState(_))));
}

#[test]
fn server_opens_odd_ids() {
    let mut sm = StreamManager::new(false, 10, 1024, 4096);
    assert_eq!(sm.open_stream().unwrap(), 1);
    assert_eq!(sm.open_stream().unwrap(), 3);
    assert!(sm.accept_stream(1).is_err());
    assert!(sm.close_stream(99).is_err());
}

#[test]
fn connection_window_accounting() {
    let mut sm = StreamManager::new(true, 10, 1024, 100);
    assert!(sm.can_send_connection(100));
    assert!(!sm.can_send_connection(101));
    sm.reserve_connection_send(60);
    assert!(sm.can_send_connection(40));
    assert!(!sm.can_send_connection(41));
    sm.update_connection_window(200);
    assert!(sm.can_send_connection(140));
}

#[test]
fn flow_control_received_advances_offset() {
    let mut fc = FlowControl::new(100);
    fc.received(0, 10);
    fc.received(20, 5);
    assert_eq!(fc.received_offset, 25);
    assert!(fc.can_send(100));
    assert!(!fc.can_send(101));
}

#[test]
fn close_stream_twice_removes_it() {
    let mut sm = StreamManager::new(true, 10, 1024, 4096);
    let sid = sm.open_stream().unwrap();
    sm.close_stream(sid).unwrap();
    assert!(sm.has_stream(sid));
    assert_eq!(sm.get_stream(sid).unwrap().state, StreamState::HalfClosedRemote);
    sm.get_stream_mut(sid).unwrap().close_write();
    sm.close_stream(sid).unwrap();
    assert!(!sm.has_stream(sid));
}

#[test]
fn opened_ids_are_never_reused() {
    let mut sm = StreamManager::new(false, 2, 1024, 1 << 20);
    let a = sm.open_stream().unwrap();
    let b = sm.open_stream().unwrap();
    assert_eq!((a, b), (1, 3));
    sm.shutdown_stream(a).unwrap();
    sm.shutdown_stream(b).unwrap();
    assert_eq!(sm.stream_count(), 0);
    // Closed streams free their places, not their ids.
    let c = sm.open_stream().unwrap();
    assert_eq!(c, 5);
    assert_eq!(sm.stream_count(), 1);
    // A stream the peer opens with its own parity does not disturb ours.
    sm.accept_stream(2).unwrap();
    let d = sm.open_stream();
    assert!(d.is_err());
}
