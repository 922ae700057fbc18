use aight::chat_server::{check_name, parse_chat_line, ChatAction, ChatBroker, ChatEvent};
use aight::line_server::{self, parse_raw, Event, LineAction};
use aight::server::{
    parse_raw_to_event, try_parse_raw_to_event, Broker, BrokerAction, Connection, Peer,
    PeerStatus, ServerEvent, Step,
};
use aight::types::{create_echo, create_login, create_send, RawTcpMessage};

#[test]
fn frames_become_events() {
    match parse_raw_to_event(create_login("tom".to_string())) {
        ServerEvent::Login { id } => assert_eq!(id, "tom"),
        other => panic!("unexpected {:?}", other),
    }
    match parse_raw_to_event(create_echo("yo".to_string())) {
        ServerEvent::Echo { msg } => assert_eq!(msg, "yo"),
        other => panic!("unexpected {:?}", other),
    }
    match parse_raw_to_event(create_send("lucy".to_string(), "hi".to_string())) {
        ServerEvent::Message { to, msg } => {
            assert_eq!(to, "lucy");
            assert_eq!(msg, "hi");
        }
        other => panic!("unexpected {:?}", other),
    }
    let unknown = RawTcpMessage { type_id: 9, body: vec![0xFF] };
    assert!(matches!(parse_raw_to_event(unknown), ServerEvent::Unknown));
}

#[test]
fn undecodable_frame_gives_no_event() {
    let bad = RawTcpMessage { type_id: 1, body: vec![0x0A, 0x09] };
    assert!(try_parse_raw_to_event(bad).is_none());
}

#[test]
fn broker_registers_and_refuses_duplicates() {
    let mut b = Broker::new();
    assert!(matches!(b.on_event("tom", ServerEvent::NewPeer), BrokerAction::Register));
    match b.on_event("tom", ServerEvent::NewPeer) {
        BrokerAction::Refuse { notice } => assert_eq!(
            notice,
            "another client with same id is online. connection refused."
        ),
        other => panic!("unexpected {:?}", other),
    }
}

#[test]
fn broker_delivers_only_to_online_users() {
    let mut b = Broker::new();
    b.on_event("tom", ServerEvent::NewPeer);
    b.on_event("lucy", ServerEvent::NewPeer);
    let sent = b.on_event(
        "tom",
        ServerEvent::Message { to: "lucy".to_string(), msg: "hi".to_string() },
    );
    match sent {
        BrokerAction::Deliver { to, text } => {
            assert_eq!(to, "lucy");
            assert_eq!(text, "msg from tom: hi\n");
        }
        other => panic!("unexpected {:?}", other),
    }
    let lost = b.on_event(
        "tom",
        ServerEvent::Message { to: "nobody".to_string(), msg: "hi".to_string() },
    );
    assert!(matches!(lost, BrokerAction::Nothing));
}

#[test]
fn broker_echoes_to_sender() {
    let mut b = Broker::new();
    assert!(matches!(
        b.on_event("tom", ServerEvent::Echo { msg: "x".to_string() }),
        BrokerAction::Nothing
    ));
    b.on_event("tom", ServerEvent::NewPeer);
    match b.on_event("tom", ServerEvent::Echo { msg: "x".to_string() }) {
        BrokerAction::Deliver { to, text } => {
            assert_eq!(to, "tom");
            assert_eq!(text, "x");
        }
        other => panic!("unexpected {:?}", other),
    }
}

#[test]
fn login_then_exit_closes_and_frees_the_id() {
    let mut b = Broker::new();
    b.on_event("tom", ServerEvent::NewPeer);
    match b.on_event("tom", ServerEvent::Exit) {
        BrokerAction::Close { id } => assert_eq!(id, "tom"),
        other => panic!("unexpected {:?}", other),
    }
    assert!(matches!(b.remove_peer("tom"), BrokerAction::Nothing));
    assert!(matches!(b.on_event("tom", ServerEvent::NewPeer), BrokerAction::Register));
    assert!(matches!(b.on_event("tom", ServerEvent::Unknown), BrokerAction::Nothing));
}

#[test]
fn peer_is_authorized_under_its_id() {
    match Peer::new("tom".to_string()).status {
        PeerStatus::Authorized(id) => assert_eq!(id, "tom"),
        PeerStatus::Unauthorized => panic!("expected authorized"),
    }
}

#[test]
fn connection_logs_in_then_relays() {
    let mut b = Broker::new();
    let mut c = Connection::new();
    match c.on_frame(&mut b, create_login("tom".to_string())) {
        Step::Act(BrokerAction::Register) => {}
        other => panic!("unexpected {:?}", other),
    }
    assert!(matches!(&c, Connection::Joined { id } if id == "tom"));
    match c.on_frame(&mut b, create_echo("ping".to_string())) {
        Step::Act(BrokerAction::Deliver { to, text }) => {
            assert_eq!(to, "tom");
            assert_eq!(text, "ping");
        }
        other => panic!("unexpected {:?}", other),
    }
    match c.on_closed(&mut b) {
        Step::Act(BrokerAction::Close { id }) => assert_eq!(id, "tom"),
        other => panic!("unexpected {:?}", other),
    }
    assert!(matches!(c, Connection::Finished));
}

#[test]
fn connection_without_login_stops() {
    let mut b = Broker::new();
    let mut c = Connection::new();
    assert!(matches!(c.on_frame(&mut b, create_echo("x".to_string())), Step::Stop));
    assert!(matches!(c, Connection::Finished));
    let mut c2 = Connection::new();
    let bad = RawTcpMessage { type_id: 1, body: vec![0xFF] };
    assert!(matches!(c2.on_frame(&mut b, bad), Step::BadFrame));
    assert!(matches!(c2.on_closed(&mut b), Step::Stop));
}

#[test]
fn line_protocol_commands() {
    match parse_raw("tom| :to lucy  hi there ".to_string()) {
        Some(Event::Message { id, to, msg }) => {
            assert_eq!((id.as_str(), to.as_str(), msg.as_str()), ("tom", "lucy", "hi there"));
        }
        other => panic!("unexpected {:?}", other),
    }
    match parse_raw("tom|:echo  hey".to_string()) {
        Some(Event::Message { id, to, msg }) => {
            assert_eq!((id.as_str(), to.as_str(), msg.as_str()), ("tom", "tom", "hey"));
        }
        other => panic!("unexpected {:?}", other),
    }
    assert!(matches!(parse_raw("tom|:exit".to_string()), Some(Event::Exit { id }) if id == "tom"));
    assert!(parse_raw("no bar here".to_string()).is_none());
    assert!(parse_raw("tom|hello".to_string()).is_none());
    assert!(parse_raw("tom|:to lucy".to_string()).is_none());
}

#[test]
fn line_broker_flow() {
    let mut b = line_server::Broker::new();
    assert!(matches!(b.on_event(Event::NewPeer { id: "tom".to_string() }), LineAction::Register));
    assert!(matches!(b.on_event(Event::NewPeer { id: "tom".to_string() }), LineAction::Reject));
    match b.on_event(Event::Message {
        id: "ann".to_string(),
        to: "tom".to_string(),
        msg: "yo".to_string(),
    }) {
        LineAction::Deliver { to, text } => {
            assert_eq!(to, "tom");
            assert_eq!(text, "msg from ann: yo\n");
        }
        other => panic!("unexpected {:?}", other),
    }
    assert!(matches!(b.on_event(Event::Exit { id: "tom".to_string() }), LineAction::Close { .. }));
    assert!(matches!(b.on_event(Event::Exit { id: "tom".to_string() }), LineAction::Nothing));
    assert!(matches!(line_server::Peer::new().status, PeerStatus::Unauthorized));
}

#[test]
fn chat_lines_and_names() {
    assert!(check_name("shit".to_string()).is_none());
    assert_eq!(check_name("ann".to_string()), Some("ann".to_string()));
    let (to, msg) = parse_chat_line(" ann , bob,:  hello there ").unwrap();
    assert_eq!(to, vec!["ann".to_string(), "bob".to_string(), String::new()]);
    assert_eq!(msg, "hello there");
    assert!(parse_chat_line("no colon").is_none());
    let (to, msg) = parse_chat_line(":x").unwrap();
    assert_eq!(to, vec![String::new()]);
    assert_eq!(msg, "x");
}

#[test]
fn chat_broker_routes_in_order() {
    let mut b = ChatBroker::new();
    assert!(matches!(
        b.on_event(ChatEvent::NewPeer { name: "ann".to_string() }),
        ChatAction::StartWriter { .. }
    ));
    assert!(matches!(b.on_event(ChatEvent::NewPeer { name: "ann".to_string() }), ChatAction::Ignore));
    b.on_event(ChatEvent::NewPeer { name: "bob".to_string() });
    let action = b.on_event(ChatEvent::Message {
        from: "cat".to_string(),
        to: vec!["bob".to_string(), "zed".to_string(), "ann".to_string(), "bob".to_string()],
        msg: "hi".to_string(),
    });
    match action {
        ChatAction::Send { deliveries } => {
            let names: Vec<&str> = deliveries.iter().map(|d| d.0.as_str()).collect();
            assert_eq!(names, vec!["bob", "ann", "bob"]);
            assert!(deliveries.iter().all(|d| d.1 == "from cat: hi\n"));
        }
        other => panic!("unexpected {:?}", other),
    }
}

#[test]
fn line_commands_ignore_surrounding_whitespace() {
    for (plain, padded) in [
        ("tom|:to lucy hi", "tom|  :to lucy hi  "),
        ("tom|:echo hey", "tom|\t:echo hey \u{3000}"),
        ("tom|:exit", "tom| :exit\n"),
    ] {
        let a = format!("{:?}", parse_raw(plain.to_string()));
        let b = format!("{:?}", parse_raw(padded.to_string()));
        assert_eq!(a, b);
    }
}

#[test]
fn refused_duplicate_connection_leaves_the_online_user() {
    let mut b = Broker::new();
    let mut first = Connection::new();
    assert!(matches!(
        first.on_frame(&mut b, create_login("tom".to_string())),
        Step::Act(BrokerAction::Register)
    ));
    let mut second = Connection::new();
    match second.on_frame(&mut b, create_login("tom".to_string())) {
        Step::Act(BrokerAction::Refuse { notice }) => assert_eq!(
            notice,
            "another client with same id is online. connection refused."
        ),
        other => panic!("unexpected {:?}", other),
    }
    assert!(matches!(second, Connection::Finished));
    assert!(matches!(second.on_frame(&mut b, create_echo("x".to_string())), Step::Stop));
    assert!(matches!(second.on_closed(&mut b), Step::Stop));
    // tom is still online: a message to tom is delivered
    match b.on_event("ann", ServerEvent::Message { to: "tom".to_string(), msg: "hi".to_string() }) {
        BrokerAction::Deliver { to, .. } => assert_eq!(to, "tom"),
        other => panic!("unexpected {:?}", other),
    }
}
