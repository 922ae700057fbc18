use aight::buffer::new_buffer;
use aight::codec::{Bytes, ProtobufFrameCodec};
use aight::types::{DecodeFailure, RawTcpMessage};
use bytes::BytesMut;

fn frame(type_id: i32, body: &[u8]) -> RawTcpMessage {
    RawTcpMessage { type_id, body: body.to_vec() }
}

#[test]
fn encode_writes_length_then_message() {
    let mut codec = ProtobufFrameCodec::new();
    let mut buf = BytesMut::new();
    codec.encode(frame(1, b"hi"), &mut buf);
    assert_eq!(&buf[..], &[0x06, 0x08, 0x01, 0x12, 0x02, b'h', b'i'][..]);
}

#[test]
fn encode_appends_after_existing_bytes() {
    let mut codec = ProtobufFrameCodec::new();
    let mut buf = BytesMut::from(&[0xAAu8][..]);
    codec.encode(frame(2, b""), &mut buf);
    assert_eq!(&buf[..], &[0xAA, 0x02, 0x08, 0x02][..]);
}

#[test]
fn default_fields_are_not_written() {
    let mut codec = ProtobufFrameCodec::new();
    let mut buf = BytesMut::new();
    codec.encode(frame(0, b""), &mut buf);
    assert_eq!(&buf[..], &[0x00][..]);
    match codec.decode(&mut buf) {
        Ok(Some(m)) => {
            assert_eq!(m.type_id, 0);
            assert!(m.body.is_empty());
        }
        other => panic!("unexpected {:?}", other),
    }
    assert!(buf.is_empty());
}

#[test]
fn negative_type_id_round_trips() {
    let mut codec = ProtobufFrameCodec::new();
    let mut buf = BytesMut::new();
    codec.encode(frame(-1, b"x"), &mut buf);
    // key, ten varint bytes for -1, then the body field
    assert_eq!(buf[0], 14);
    assert_eq!(buf.len(), 15);
    let m = codec.decode(&mut buf).unwrap().unwrap();
    assert_eq!(m.type_id, -1);
    assert_eq!(m.body, b"x".to_vec());
}

#[test]
fn frame_round_trip_leaves_following_bytes() {
    let mut codec = ProtobufFrameCodec::new();
    let mut buf = BytesMut::new();
    codec.encode(frame(3, b"first"), &mut buf);
    codec.encode(frame(2, b"second"), &mut buf);
    let a = codec.decode(&mut buf).unwrap().unwrap();
    assert_eq!((a.type_id, a.body), (3, b"first".to_vec()));
    let b = codec.decode(&mut buf).unwrap().unwrap();
    assert_eq!((b.type_id, b.body), (2, b"second".to_vec()));
    assert!(buf.is_empty());
    assert!(codec.decode(&mut buf).unwrap().is_none());
}

#[test]
fn long_body_uses_two_byte_length() {
    let body = vec![7u8; 295];
    let mut codec = ProtobufFrameCodec::new();
    let mut buf = BytesMut::new();
    codec.encode(frame(1, &body), &mut buf);
    // 2 (type) + 1 (key) + 2 (length of the body) + 295 = 300 bytes of message
    assert_eq!(&buf[..2], &[0xAC, 0x02][..]);
    assert_eq!(buf.len(), 302);
    let m = codec.decode(&mut buf).unwrap().unwrap();
    assert_eq!(m.body, body);
}

#[test]
fn incomplete_frame_waits_and_keeps_bytes() {
    let mut codec = ProtobufFrameCodec::new();
    let mut full = BytesMut::new();
    codec.encode(frame(1, b"hello"), &mut full);
    let mut partial = BytesMut::from(&full[..full.len() - 1]);
    let before = partial.clone();
    assert!(codec.decode(&mut partial).unwrap().is_none());
    assert_eq!(partial, before);
    let mut empty = BytesMut::new();
    assert!(codec.decode(&mut empty).unwrap().is_none());
    let mut half_length = BytesMut::from(&[0x80u8][..]);
    assert!(codec.decode(&mut half_length).unwrap().is_none());
    assert_eq!(&half_length[..], &[0x80][..]);
}

#[test]
fn corrupt_length_is_an_error() {
    let mut codec = ProtobufFrameCodec::new();
    let mut buf = BytesMut::from(&[0xFFu8; 12][..]);
    match codec.decode(&mut buf) {
        Err(DecodeFailure::Protobuf(_)) => {}
        other => panic!("unexpected {:?}", other),
    }
    assert!(buf.is_empty());
}

#[test]
fn undecodable_body_is_an_error_and_is_consumed() {
    let mut codec = ProtobufFrameCodec::new();
    // a frame of one byte holding the key 0, which names field 0
    let mut buf = BytesMut::from(&[0x01u8, 0x00, 0x05][..]);
    match codec.decode(&mut buf) {
        Err(DecodeFailure::Protobuf(_)) => {}
        other => panic!("unexpected {:?}", other),
    }
    assert_eq!(&buf[..], &[0x05][..]);
}

#[test]
fn unknown_fields_are_skipped() {
    let mut codec = ProtobufFrameCodec::new();
    // field 1 = 2, field 5 (varint) = 300, field 6 (32-bit), group 3, field 2 = "a"
    let msg: Vec<u8> = vec![
        0x08, 0x02, 0x28, 0xAC, 0x02, 0x35, 1, 2, 3, 4, 0x1B, 0x08, 0x01, 0x1C, 0x12, 0x01, b'a',
    ];
    let mut buf = BytesMut::new();
    buf.extend_from_slice(&[msg.len() as u8]);
    buf.extend_from_slice(&msg);
    let m = codec.decode(&mut buf).unwrap().unwrap();
    assert_eq!(m.type_id, 2);
    assert_eq!(m.body, b"a".to_vec());
}

#[test]
fn last_value_of_a_repeated_field_wins() {
    let mut codec = ProtobufFrameCodec::new();
    let msg: Vec<u8> = vec![0x08, 0x02, 0x08, 0x03];
    let mut buf = BytesMut::new();
    buf.extend_from_slice(&[msg.len() as u8]);
    buf.extend_from_slice(&msg);
    let m = codec.decode(&mut buf).unwrap().unwrap();
    assert_eq!(m.type_id, 3);
}

#[test]
fn wrong_wire_type_is_an_error() {
    let mut codec = ProtobufFrameCodec::new();
    // field 1 written as length-delimited
    let mut buf = BytesMut::from(&[0x03u8, 0x0A, 0x01, 0x00][..]);
    assert!(matches!(codec.decode(&mut buf), Err(DecodeFailure::Protobuf(_))));
    assert!(buf.is_empty());
}

#[test]
fn bytes_codec_takes_everything() {
    let mut codec = Bytes;
    let mut buf = BytesMut::new();
    assert!(codec.decode(&mut buf).is_none());
    codec.encode(b"abc".to_vec(), &mut buf);
    codec.encode(b"de".to_vec(), &mut buf);
    assert_eq!(&buf[..], b"abcde");
    assert_eq!(codec.decode(&mut buf), Some(b"abcde".to_vec()));
    assert!(buf.is_empty());
    assert!(codec.decode(&mut buf).is_none());
}

#[test]
fn new_buffer_is_empty_and_usable() {
    let mut buf = new_buffer();
    assert!(buf.is_empty());
    let mut codec = ProtobufFrameCodec::new();
    codec.encode(frame(1, b"z"), &mut buf);
    let m = codec.decode(&mut buf).unwrap().unwrap();
    assert_eq!((m.type_id, m.body), (1, b"z".to_vec()));
}
