use aight::msg_types;
use aight::types::{
    create_echo, create_login, create_send, parse_raw_msg, DecodeFailure, EchoRequest, Login,
    MsgSendRequest, TypeID,
};

#[test]
fn type_ids_are_one_two_three() {
    assert_eq!(TypeID::Login.code(), 1);
    assert_eq!(TypeID::EchoRequest.code(), 2);
    assert_eq!(TypeID::SendRequest.code(), 3);
}

#[test]
fn login_frame_bytes() {
    let m = create_login("tom".to_string());
    assert_eq!(m.type_id, 1);
    assert_eq!(m.body, vec![0x0A, 0x03, b't', b'o', b'm']);
    let parsed: Login = parse_raw_msg(&m.body).unwrap();
    assert_eq!(parsed.id, "tom");
}

#[test]
fn empty_login_has_empty_body() {
    let m = create_login(String::new());
    assert_eq!(m.type_id, 1);
    assert!(m.body.is_empty());
    let parsed: Login = parse_raw_msg(&m.body).unwrap();
    assert_eq!(parsed.id, "");
}

#[test]
fn echo_frame_round_trips() {
    let m = create_echo("héllo".to_string());
    assert_eq!(m.type_id, 2);
    assert_eq!(m.body[0], 0x0A);
    assert_eq!(m.body[1] as usize, "héllo".len());
    let parsed: EchoRequest = parse_raw_msg(&m.body).unwrap();
    assert_eq!(parsed.body, "héllo");
}

#[test]
fn send_frame_bytes_and_round_trip() {
    let m = create_send("lucy".to_string(), "hi".to_string());
    assert_eq!(m.type_id, 3);
    assert_eq!(
        m.body,
        vec![0x0A, 0x04, b'l', b'u', b'c', b'y', 0x12, 0x02, b'h', b'i']
    );
    let parsed: MsgSendRequest = parse_raw_msg(&m.body).unwrap();
    assert_eq!(parsed.to_id, "lucy");
    assert_eq!(parsed.body, "hi");
}

#[test]
fn client_frames_match_server_frames() {
    let a = msg_types::create_login("tom".to_string());
    let b = create_login("tom".to_string());
    assert_eq!((a.type_id, a.body), (b.type_id, b.body));
    let a = msg_types::create_echo("x".to_string());
    assert_eq!(a.type_id, 2);
    let a = msg_types::create_send("a".to_string(), "b".to_string());
    let b = create_send("a".to_string(), "b".to_string());
    assert_eq!((a.type_id, a.body), (b.type_id, b.body));
}

#[test]
fn invalid_utf8_is_refused() {
    let body = vec![0x0A, 0x02, 0xC3, 0x28];
    let r: Result<Login, DecodeFailure> = parse_raw_msg(&body);
    assert!(matches!(r, Err(DecodeFailure::Protobuf(_))));
}

#[test]
fn truncated_string_is_refused() {
    let body = vec![0x0A, 0x05, b'a'];
    let r: Result<EchoRequest, DecodeFailure> = parse_raw_msg(&body);
    assert!(matches!(r, Err(DecodeFailure::Protobuf(_))));
}

#[test]
fn stray_end_group_is_refused() {
    let body = vec![0x1C];
    let r: Result<Login, DecodeFailure> = parse_raw_msg(&body);
    assert!(matches!(r, Err(DecodeFailure::Protobuf(_))));
}
