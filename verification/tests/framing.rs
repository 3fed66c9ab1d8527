use aether_core::error::CloseCode;
use aether_core::framing::{LONG_HEADER_SIZE, MAX_STREAM_ID, SHORT_HEADER_SIZE};
use aether_core::{ExtType, Extension, Frame, FrameType, LongHeader, ShortHeader, AETHER_VERSION};

#[test]
fn test_short_header_encode_decode() {
    let header = ShortHeader {
        version: AETHER_VERSION,
        frame_type: FrameType::Data,
        has_extensions: false,
        stream_id: 42,
        offset: 1024,
        length: 256,
        connection_id: 0xDEADBEEF,
    };

    let mut buf = Vec::new();
    header.encode(&mut buf);
    assert_eq!(buf.len(), SHORT_HEADER_SIZE);

    let decoded = ShortHeader::decode(&buf).unwrap();
    assert_eq!(decoded.version, AETHER_VERSION);
    assert_eq!(decoded.frame_type, FrameType::Data);
    assert!(!decoded.has_extensions);
    assert_eq!(decoded.stream_id, 42);
    assert_eq!(decoded.offset, 1024);
    assert_eq!(decoded.length, 256);
    assert_eq!(decoded.connection_id, 0xDEADBEEF);
}

#[test]
fn test_long_header_encode_decode() {
    let long = LongHeader::new(FrameType::Initial, 0, 0x12345678, 0xAABBCCDDEEFF0011, false, 0, 128);
    let mut buf = Vec::new();
    long.encode(&mut buf);
    assert_eq!(buf.len(), LONG_HEADER_SIZE);

    let decoded = LongHeader::decode(&buf).unwrap();
    assert_eq!(decoded.short.version, AETHER_VERSION);
    assert_eq!(decoded.short.frame_type, FrameType::Initial);
    assert_eq!(decoded.short.connection_id, 0x12345678);
    assert_eq!(decoded.source_connection_id, 0xAABBCCDDEEFF0011);
    assert_eq!(decoded.short.length, 128);
}

#[test]
fn test_frame_data_encode_decode() {
    let frame = Frame::data(10, 0xCAFEBABE, 0, b"Hello, Aether!".to_vec());
    let wire = frame.encode();

    let decoded = Frame::decode(&wire).unwrap();
    assert_eq!(decoded.header.frame_type, FrameType::Data);
    assert_eq!(decoded.header.stream_id, 10);
    assert_eq!(decoded.header.connection_id, 0xCAFEBABE);
    assert_eq!(decoded.payload, b"Hello, Aether!");
}

#[test]
fn test_frame_with_extensions() {
    let mut frame = Frame::data(1, 0x11111111, 0, b"data".to_vec());
    frame.add_extension(Extension::new(ExtType::Priority, vec![128]));
    frame.add_extension(Extension::new(ExtType::Timestamp, 42u64.to_be_bytes().to_vec()));

    let wire = frame.encode();
    let decoded = Frame::decode(&wire).unwrap();

    assert!(decoded.header.has_extensions);
    assert_eq!(decoded.extensions.len(), 2);
    assert_eq!(decoded.extensions[0].ext_type, ExtType::Priority);
    assert_eq!(decoded.extensions[0].value, vec![128]);
    assert_eq!(decoded.extensions[1].ext_type, ExtType::Timestamp);
    assert_eq!(decoded.payload, b"data");
}

#[test]
fn test_frame_long_initial() {
    let frame = Frame::new_long(
        FrameType::Initial,
        0,
        0xAAAAAAAA,
        0xBBBBBBBBBBBBBBBB,
        b"client-hello-data".to_vec(),
    );
    let wire = frame.encode();
    let decoded = Frame::decode(&wire).unwrap();

    assert!(decoded.long_header.is_some());
    assert_eq!(decoded.header.frame_type, FrameType::Initial);
    assert_eq!(decoded.payload, b"client-hello-data");

    let long = decoded.long_header.unwrap();
    assert_eq!(long.source_connection_id, 0xBBBBBBBBBBBBBBBB);
}

#[test]
fn test_close_frame() {
    let frame = Frame::close(0x12345678, CloseCode::NoError, "bye");
    let wire = frame.encode();
    let decoded = Frame::decode(&wire).unwrap();

    assert_eq!(decoded.header.frame_type, FrameType::Close);
    assert_eq!(decoded.payload[0], 0x00);
    assert_eq!(&decoded.payload[1..], b"bye");
}

#[test]
fn test_ping_pong() {
    let frame = Frame::ping(0x98765432);
    let wire = frame.encode();
    let decoded = Frame::decode(&wire).unwrap();

    assert_eq!(decoded.header.frame_type, FrameType::Ping);
    assert_eq!(decoded.payload.len(), 8);
}

#[test]
fn test_max_stream_id() {
    let frame = Frame::data(MAX_STREAM_ID, 0x1, 0, b"test".to_vec());
    let wire = frame.encode();
    let decoded = Frame::decode(&wire).unwrap();
    assert_eq!(decoded.header.stream_id, MAX_STREAM_ID);
}

#[test]
fn test_unknown_extension_ignored() {
    let frame = Frame::data(1, 0x1, 0, b"data".to_vec());
    let wire = frame.encode();
    let decoded = Frame::decode(&wire).unwrap();
    assert_eq!(decoded.payload, b"data");
    assert_eq!(decoded.extensions.len(), 0);
}

#[test]
fn test_corrupted_header() {
    let frame = Frame::data(1, 0x1, 0, b"test".to_vec());
    let mut wire = frame.encode();
    wire[0] = 0xFF;
    let result = Frame::decode(&wire);
    assert!(result.is_err());
}

#[test]
fn test_wire_size() {
    let frame = Frame::data(1, 0x1, 0, b"hello".to_vec());
    assert_eq!(frame.wire_size(), 16 + 5);

    let mut frame_ext = Frame::data(1, 0x1, 0, b"hello".to_vec());
    frame_ext.add_extension(Extension::new(ExtType::Priority, vec![255]));
    let ws = frame_ext.wire_size();
    assert!(ws == 29 || ws == 30, "wire_size {} expected 29 or 30", ws);
}

// ── further cases ──

#[test]
fn short_header_exact_bytes() {
    let header = ShortHeader {
        version: 0,
        frame_type: FrameType::Data,
        has_extensions: true,
        stream_id: 0x3FFFF,
        offset: 0x01020304,
        length: 5,
        connection_id: 0xA0B0C0D0,
    };
    let mut buf = Vec::new();
    header.encode(&mut buf);
    // Data is type 0x02: byte 0 holds version 0 and the type's high bits (0);
    // byte 1 holds the type's low bits (0x80), E (0x10) and the stream id's
    // two high bits (0x03).
    assert_eq!(
        buf,
        vec![0x00, 0x93, 0xFF, 0xFF, 0x01, 0x02, 0x03, 0x04, 0x00, 0x00, 0x00, 0x05, 0xA0, 0xB0, 0xC0, 0xD0]
    );
}

#[test]
fn short_header_too_short_is_refused() {
    let err = ShortHeader::decode(&[0u8; 15]).unwrap_err();
    assert!(matches!(err, aether_core::Error::ProtocolViolation(_)));
}

#[test]
fn empty_datagram_is_refused() {
    assert!(matches!(Frame::decode(&[]), Err(aether_core::Error::ProtocolViolation(_))));
}

#[test]
fn unknown_extension_type_is_skipped() {
    let mut frame = Frame::data(3, 7, 0, b"xy".to_vec());
    frame.add_extension(Extension::new(ExtType::Priority, vec![9]));
    let mut wire = frame.encode();
    // The extension chain starts after the 16 header bytes; a type this
    // version does not know (0x7F) is skipped, and the terminator after it
    // still ends the chain.
    wire[16] = 0x7F;
    let decoded = Frame::decode(&wire).unwrap();
    assert_eq!(decoded.extensions.len(), 0);
    assert_eq!(decoded.payload, b"xy".to_vec());
}

#[test]
fn unknown_extension_between_known_ones() {
    // Data frame, E set, length 4: an extension of unknown type 0x07 with
    // value [0xAA], a Priority extension, the terminator, payload "data".
    let wire = vec![
        0x00, 0x90, 0x00, 0x01, 0, 0, 0, 0, 0, 0, 0, 4, 0, 0, 0, 1,
        0x07, 0, 0, 1, 0xAA,
        0x02, 0, 0, 1, 0x05,
        0, 0, 0, 0,
        0x64, 0x61, 0x74, 0x61,
    ];
    let d = Frame::decode(&wire).unwrap();
    assert_eq!(d.payload, b"data".to_vec());
    assert_eq!(d.extensions.len(), 1);
    assert_eq!(d.extensions[0].ext_type, ExtType::Priority);
    assert_eq!(d.extensions[0].value, vec![0x05]);

    let only_unknown = vec![
        0x00, 0x90, 0x00, 0x01, 0, 0, 0, 0, 0, 0, 0, 4, 0, 0, 0, 1,
        0x07, 0, 0, 1, 0xAA,
        0, 0, 0, 0,
        0x64, 0x61, 0x74, 0x61,
    ];
    let d = Frame::decode(&only_unknown).unwrap();
    assert_eq!(d.payload, b"data".to_vec());
    assert!(d.extensions.is_empty());
}

#[test]
fn wire_size_matches_encoding() {
    let mut frame = Frame::new_long(FrameType::Handshake, 0, 1, 2, vec![1, 2, 3]);
    assert_eq!(frame.wire_size(), frame.encode().len());
    frame.add_extension(Extension::new(ExtType::Padding, vec![0; 10]));
    frame.add_extension(Extension::new(ExtType::PathId, vec![4]));
    assert_eq!(frame.wire_size(), frame.encode().len());
    assert_eq!(frame.wire_size(), 24 + 14 + 5 + 4 + 3);
}

#[test]
fn decode_gives_back_every_field() {
    let long = Frame::new_long(FrameType::Initial, 17, 0x0102_0304, 0x1122_3344_5566_7788, b"abc".to_vec());
    let decoded = Frame::decode(&long.encode()).unwrap();
    assert_eq!(decoded.long_header, long.long_header);
    assert_eq!(decoded.header, long.header);
    assert_eq!(decoded.payload, b"abc".to_vec());

    let mut short = Frame::new_short(FrameType::Ack, 9, 0x0A0B_0C0D, 77, b"xyz".to_vec());
    short.add_extension(Extension::new(ExtType::FlowControl, vec![1, 2, 3, 4]));
    let decoded = Frame::decode(&short.encode()).unwrap();
    assert!(decoded.long_header.is_none());
    assert_eq!(decoded.header, short.header);
    assert_eq!(decoded.extensions.len(), 1);
    assert_eq!(decoded.extensions[0].ext_type, ExtType::FlowControl);
    assert_eq!(decoded.extensions[0].value, vec![1, 2, 3, 4]);
    assert_eq!(decoded.payload, b"xyz".to_vec());
}

#[test]
fn extension_on_long_frame_is_announced() {
    // Adding an extension sets the E bit of the long header too, so the
    // chain is announced on the wire and read back.
    let mut frame = Frame::new_long(FrameType::Handshake, 0, 1, 2, b"p".to_vec());
    frame.add_extension(Extension::new(ExtType::Priority, vec![1]));
    assert!(frame.header.has_extensions);
    assert!(frame.long_header.unwrap().short.has_extensions);
    let decoded = Frame::decode(&frame.encode()).unwrap();
    assert_eq!(decoded.extensions.len(), 1);
    assert_eq!(decoded.extensions[0].ext_type, ExtType::Priority);
    assert_eq!(decoded.extensions[0].value, vec![1]);
    assert_eq!(decoded.payload, b"p".to_vec());
    assert_eq!(decoded.long_header, frame.long_header);
}

#[test]
fn long_header_on_short_type_is_refused() {
    // A Data packet is never sent with a long header.
    let long = LongHeader::new(FrameType::Data, 0, 1, 2, false, 0, 0);
    let mut buf = Vec::new();
    long.encode(&mut buf);
    assert!(Frame::decode(&buf).is_err());
}

#[test]
fn frame_type_codes() {
    assert_eq!(FrameType::Ping.to_u8(), 0x05);
    for code in 0u8..=0x3F {
        if let Some(t) = FrameType::from_u8(code) {
            assert_eq!(t.to_u8(), code);
        }
    }
    assert!(FrameType::from_u8(0x3F).is_none());
    assert_eq!(ExtType::from_u8(0x04), Some(ExtType::PathId));
    assert_eq!(ExtType::from_u8(0x06), None);
}

#[test]
fn close_code_roundtrip() {
    for code in 0u8..=8 {
        assert_eq!(CloseCode::from_u8(code).unwrap().to_u8(), code);
    }
    assert!(CloseCode::from_u8(9).is_none());
    assert_eq!(CloseCode::IdentityRejected.name(), "IDENTITY_REJECTED");
}

#[test]
fn read_write_big_endian() {
    let mut buf = Vec::new();
    aether_core::framing::write_u64_be(&mut buf, 0x0102030405060708);
    aether_core::framing::write_u32_be(&mut buf, 0x0A0B0C0D);
    assert_eq!(buf, vec![1, 2, 3, 4, 5, 6, 7, 8, 0x0A, 0x0B, 0x0C, 0x0D]);
    let mut off = 0usize;
    assert_eq!(aether_core::framing::read_u64_be(&buf, &mut off).unwrap(), 0x0102030405060708);
    assert_eq!(aether_core::framing::read_u32_be(&buf, &mut off).unwrap(), 0x0A0B0C0D);
    assert_eq!(off, 12);
    assert!(aether_core::framing::read_u32_be(&buf, &mut off).is_err());
    assert_eq!(off, 12);
}
