use aight::client::{
    parse_command, parse_line_to_msg, render_incoming, transform, ClientCommand, LinesCodecError,
};
use aight::types::{parse_raw_msg, EchoRequest, MsgSendRequest};

#[test]
fn to_command_sends_to_user() {
    let m = parse_line_to_msg(":to tom  hello world  ".to_string()).unwrap();
    assert_eq!(m.type_id, 3);
    let req: MsgSendRequest = parse_raw_msg(&m.body).unwrap();
    assert_eq!(req.to_id, "tom");
    assert_eq!(req.body, "hello world");
}

#[test]
fn to_command_trims_before_the_addressee() {
    let m = parse_line_to_msg(":to    lucy hi".to_string()).unwrap();
    let req: MsgSendRequest = parse_raw_msg(&m.body).unwrap();
    assert_eq!(req.to_id, "lucy");
    assert_eq!(req.body, "hi");
}

#[test]
fn to_command_needs_a_text() {
    assert!(parse_line_to_msg(":to tom".to_string()).is_none());
    assert!(parse_line_to_msg(":to".to_string()).is_none());
}

#[test]
fn to_prefix_is_enough() {
    let m = parse_line_to_msg(":toxyz a b".to_string()).unwrap();
    let req: MsgSendRequest = parse_raw_msg(&m.body).unwrap();
    assert_eq!(req.to_id, "a");
    assert_eq!(req.body, "b");
}

#[test]
fn echo_command_trims_the_text() {
    let m = parse_line_to_msg(":echo   hi there \t".to_string()).unwrap();
    assert_eq!(m.type_id, 2);
    let req: EchoRequest = parse_raw_msg(&m.body).unwrap();
    assert_eq!(req.body, "hi there");
}

#[test]
fn echo_without_space_is_no_command() {
    assert!(parse_line_to_msg(":echo".to_string()).is_none());
}

#[test]
fn other_lines_are_no_command() {
    assert!(parse_line_to_msg("hello".to_string()).is_none());
    assert!(parse_line_to_msg(":exit".to_string()).is_none());
    assert!(parse_line_to_msg(String::new()).is_none());
}

#[test]
fn transform_converts_errors_and_drops_plain_lines() {
    let e = std::io::Error::new(std::io::ErrorKind::BrokenPipe, "broken");
    match transform(Err(LinesCodecError::Io(e))) {
        Some(Err(x)) => {
            assert_eq!(x.kind(), std::io::ErrorKind::BrokenPipe);
            assert_eq!(x.to_string(), "broken");
        }
        _ => panic!("expected the error"),
    }
    match transform(Err(LinesCodecError::MaxLineLengthExceeded)) {
        Some(Err(x)) => assert_eq!(x.kind(), std::io::ErrorKind::Other),
        _ => panic!("expected an error"),
    }
    assert!(transform(Ok("plain".to_string())).is_none());
    match transform(Ok(":echo x".to_string())) {
        Some(Ok(m)) => assert_eq!(m.type_id, 2),
        _ => panic!("expected a frame"),
    }
}

#[test]
fn incoming_text_is_shown_after_a_prompt() {
    let out = String::from_utf8(render_incoming(b"hi there".to_vec())).unwrap();
    assert!(out.starts_with("> "));
    assert!(out.ends_with("\n"));
    assert!(out == "> hi there\n" || out == "> \u{1b}[32mhi there\u{1b}[0m\n");
}

#[test]
fn exit_command_ends_the_client() {
    assert!(matches!(parse_command(":exit".to_string()), ClientCommand::Exit));
    assert!(matches!(parse_command("exit".to_string()), ClientCommand::Nothing));
    match parse_command(":echo hi".to_string()) {
        ClientCommand::Send(m) => assert_eq!(m.type_id, 2),
        other => panic!("unexpected {:?}", other),
    }
}
