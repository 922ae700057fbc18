//! The server's decisions: what a frame means, who is online, and what to write to whom.
//! The connections themselves (sockets, reading and writing) stay with the caller, which
//! carries out the actions these functions decide on.
use crate::message::{decode_model, ProtoMessage};
use crate::types::{
    parse_raw_msg, EchoRequest, Login, MsgSendRequest, RawTcpMessage,
};
use vstd::hash_map::StringHashMap;
use vstd::prelude::*;
use vstd::string::StringExecFns;

verus! {

/// What a connection asks of the server.
#[derive(Debug)]
pub enum ServerEvent {
    /// A connection has logged in (its writer stays with the caller).
    NewPeer,
    /// A login frame with the user id.
    Login { id: String },
    /// Text for another user.
    Message { to: String, msg: String },
    /// Text to send back.
    Echo { msg: String },
    /// A frame of a type the server does not know.
    Unknown,
    /// The user leaves.
    Exit,
}

/// The model of a `ServerEvent`.
pub enum EventModel {
    NewPeer,
    Login(Seq<char>),
    Message(Seq<char>, Seq<char>),
    Echo(Seq<char>),
    Unknown,
    Exit,
}

impl View for ServerEvent {
    type V = EventModel;

    open spec fn view(&self) -> EventModel {
        match self {
            ServerEvent::NewPeer => EventModel::NewPeer,
            ServerEvent::Login { id } => EventModel::Login(id@),
            ServerEvent::Message { to, msg } => EventModel::Message(to@, msg@),
            ServerEvent::Echo { msg } => EventModel::Echo(msg@),
            ServerEvent::Unknown => EventModel::Unknown,
            ServerEvent::Exit => EventModel::Exit,
        }
    }
}

/// The event a frame stands for: type 1 is a login, 2 an echo request, 3 a message for
/// another user, anything else unknown; `None` where the body does not decode as the
/// message its type names.
pub open spec fn event_of_frame(f: (i32, Seq<u8>)) -> Option<EventModel> {
    if f.0 == 1 {
        match decode_model::<Login>(f.1) {
            Some(id) => Some(EventModel::Login(id)),
            None => None,
        }
    } else if f.0 == 2 {
        match decode_model::<EchoRequest>(f.1) {
            Some(body) => Some(EventModel::Echo(body)),
            None => None,
        }
    } else if f.0 == 3 {
        match decode_model::<MsgSendRequest>(f.1) {
            Some((to, body)) => Some(EventModel::Message(to, body)),
            None => None,
        }
    } else {
        Some(EventModel::Unknown)
    }
}

/// Whether the body of a frame decodes as the message its type names.
fn frame_decodes(raw: &RawTcpMessage) -> (r: bool)
    ensures
        r == event_of_frame(raw@) is Some,
{
    let bytes = raw.body.as_slice();
    if raw.type_id == 1 {
        parse_raw_msg::<Login>(bytes).is_ok()
    } else if raw.type_id == 2 {
        parse_raw_msg::<EchoRequest>(bytes).is_ok()
    } else if raw.type_id == 3 {
        parse_raw_msg::<MsgSendRequest>(bytes).is_ok()
    } else {
        true
    }
}

/// The event a frame stands for; the body must decode as the message its type names.
pub fn parse_raw_to_event(raw: RawTcpMessage) -> (r: ServerEvent)
    requires
        event_of_frame(raw@) is Some,
    ensures
        Some(r@) == event_of_frame(raw@),
{
    let type_id = raw.type_id;
    let bytes = raw.body;
    if type_id == 1 {
        match parse_raw_msg::<Login>(bytes.as_slice()) {
            Ok(msg) => ServerEvent::Login { id: msg.id },
            Err(_) => {
                assert(false);
                ServerEvent::Unknown
            },
        }
    } else if type_id == 2 {
        match parse_raw_msg::<EchoRequest>(bytes.as_slice()) {
            Ok(msg) => ServerEvent::Echo { msg: msg.body },
            Err(_) => {
                assert(false);
                ServerEvent::Unknown
            },
        }
    } else if type_id == 3 {
        match parse_raw_msg::<MsgSendRequest>(bytes.as_slice()) {
            Ok(msg) => ServerEvent::Message { to: msg.to_id, msg: msg.body },
            Err(_) => {
                assert(false);
                ServerEvent::Unknown
            },
        }
    } else {
        ServerEvent::Unknown
    }
}

/// The event a frame stands for, or `None` where its body does not decode as the message
/// its type names.
pub fn try_parse_raw_to_event(raw: RawTcpMessage) -> (r: Option<ServerEvent>)
    ensures
        match event_of_frame(raw@) {
            Some(e) => r matches Some(ev) && ev@ == e,
            None => r is None,
        },
{
    if frame_decodes(&raw) {
        Some(parse_raw_to_event(raw))
    } else {
        None
    }
}

/// Where a connection stands: a logged-in peer is authorized under its user id.
#[derive(Debug)]
pub enum PeerStatus {
    Unauthorized,
    Authorized(String),
}

/// What the server keeps of a logged-in connection (its writer stays with the caller).
#[derive(Debug)]
pub struct Peer {
    pub status: PeerStatus,
}

impl View for Peer {
    type V = Option<Seq<char>>;

    open spec fn view(&self) -> Option<Seq<char>> {
        match self.status {
            PeerStatus::Unauthorized => None,
            PeerStatus::Authorized(id) => Some(id@),
        }
    }
}

impl Peer {
    /// The peer of a connection that logged in as `id`.
    pub fn new(id: String) -> (r: Self)
        ensures
            r@ == Some(id@),
    {
        Peer { status: PeerStatus::Authorized(id) }
    }
}

/// What the caller must do after an event.
#[derive(Debug)]
pub enum BrokerAction {
    /// Keep the writer of the connection that just logged in.
    Register,
    /// Write `notice` to the connection that just logged in, then shut it down.
    Refuse { notice: String },
    /// Write `text` to the connection of user `to`.
    Deliver { to: String, text: String },
    /// Shut down the connection of user `id` and forget it.
    Close { id: String },
    /// Nothing.
    Nothing,
}

/// The model of a `BrokerAction`.
pub enum ActionModel {
    Register,
    Refuse(Seq<char>),
    Deliver(Seq<char>, Seq<char>),
    Close(Seq<char>),
    Nothing,
}

impl View for BrokerAction {
    type V = ActionModel;

    open spec fn view(&self) -> ActionModel {
        match self {
            BrokerAction::Register => ActionModel::Register,
            BrokerAction::Refuse { notice } => ActionModel::Refuse(notice@),
            BrokerAction::Deliver { to, text } => ActionModel::Deliver(to@, text@),
            BrokerAction::Close { id } => ActionModel::Close(id@),
            BrokerAction::Nothing => ActionModel::Nothing,
        }
    }
}

/// What a connection that logs in with an id already online is told.
pub open spec fn refusal_notice() -> Seq<char> {
    "another client with same id is online. connection refused."@
}

/// The text user `to` receives from user `from`.
pub open spec fn delivery_text(from: Seq<char>, msg: Seq<char>) -> Seq<char> {
    "msg from "@ + from + ": "@ + msg + "\n"@
}

/// Who is online after user `id` causes event `e`: a login adds the id (a second login
/// with the same id changes nothing), leaving removes it.
pub open spec fn online_after(online: Set<Seq<char>>, id: Seq<char>, e: EventModel) -> Set<
    Seq<char>,
> {
    match e {
        EventModel::NewPeer => online.insert(id),
        EventModel::Exit => online.remove(id),
        _ => online,
    }
}

/// What the caller must do after user `id` causes event `e` while `online` are online.
pub open spec fn broker_action(online: Set<Seq<char>>, id: Seq<char>, e: EventModel) -> ActionModel {
    match e {
        EventModel::NewPeer => if online.contains(id) {
            ActionModel::Refuse(refusal_notice())
        } else {
            ActionModel::Register
        },
        EventModel::Message(to, msg) => if online.contains(to) {
            ActionModel::Deliver(to, delivery_text(id, msg))
        } else {
            ActionModel::Nothing
        },
        EventModel::Echo(msg) => if online.contains(id) {
            ActionModel::Deliver(id, msg)
        } else {
            ActionModel::Nothing
        },
        EventModel::Exit => if online.contains(id) {
            ActionModel::Close(id)
        } else {
            ActionModel::Nothing
        },
        _ => ActionModel::Nothing,
    }
}

/// The users online, each under the id it logged in with.
pub struct Broker {
    peers: StringHashMap<Peer>,
}

impl View for Broker {
    type V = Set<Seq<char>>;

    closed spec fn view(&self) -> Set<Seq<char>> {
        self.peers@.dom()
    }
}

impl Broker {
    /// Every peer is authorized under the id it is kept under.
    pub closed spec fn wf(&self) -> bool {
        forall|k: Seq<char>| #[trigger] self.peers@.contains_key(k) ==> self.peers@[k]@ == Some(k)
    }

    /// Nobody is online.
    pub fn new() -> (r: Self)
        ensures
            r.wf(),
            r@ == Set::<Seq<char>>::empty(),
    {
        let r = Broker { peers: StringHashMap::new() };
        assert(r@ =~= Set::<Seq<char>>::empty());
        r
    }

    /// Handles event `event` of user `id` and says what the caller must do.
    pub fn on_event(&mut self, id: &str, event: ServerEvent) -> (r: BrokerAction)
        requires
            old(self).wf(),
        ensures
            final(self).wf(),
            final(self)@ == online_after(old(self)@, id@, event@),
            r@ == broker_action(old(self)@, id@, event@),
    {
        match event {
            ServerEvent::NewPeer => {
                if self.peers.contains_key(id) {
                    assert(online_after(old(self)@, id@, event@) =~= self@);
                    BrokerAction::Refuse {
                        notice: String::from_str(
                            "another client with same id is online. connection refused.",
                        ),
                    }
                } else {
                    self.peers.insert(id.to_owned(), Peer::new(id.to_owned()));
                    assert(self@ =~= old(self)@.insert(id@));
                    BrokerAction::Register
                }
            },
            ServerEvent::Message { to, msg } => {
                if self.peers.contains_key(to.as_str()) {
                    let mut content = String::from_str("msg from ");
                    content.append(id);
                    content.append(": ");
                    content.append(msg.as_str());
                    content.append("\n");
                    BrokerAction::Deliver { to, text: content }
                } else {
                    BrokerAction::Nothing
                }
            },
            ServerEvent::Echo { msg } => {
                if self.peers.contains_key(id) {
                    BrokerAction::Deliver { to: id.to_owned(), text: msg }
                } else {
                    BrokerAction::Nothing
                }
            },
            ServerEvent::Exit => self.remove_peer(id),
            _ => BrokerAction::Nothing,
        }
    }

    /// User `id` goes offline: its connection must be shut down, if it was online.
    pub fn remove_peer(&mut self, id: &str) -> (r: BrokerAction)
        requires
            old(self).wf(),
        ensures
            final(self).wf(),
            final(self)@ == old(self)@.remove(id@),
            r@ == (if old(self)@.contains(id@) {
                ActionModel::Close(id@)
            } else {
                ActionModel::Nothing
            }),
    {
        if self.peers.contains_key(id) {
            self.peers.remove(id);
            assert(self@ =~= old(self)@.remove(id@));
            BrokerAction::Close { id: id.to_owned() }
        } else {
            assert(self@ =~= old(self)@.remove(id@));
            BrokerAction::Nothing
        }
    }
}

/// Where a connection to the server stands.
#[derive(Debug)]
pub enum Connection {
    /// Its first frame has not come yet.
    AwaitingLogin,
    /// Its first frame was an accepted login as `id`; every later frame is handled as from
    /// `id`.
    Joined { id: String },
    /// It is done (refused, or its first frame was no login, or it closed): the caller
    /// drops it.
    Finished,
}

/// The model of a `Connection`.
pub enum ConnectionModel {
    AwaitingLogin,
    Joined(Seq<char>),
    Finished,
}

impl View for Connection {
    type V = ConnectionModel;

    open spec fn view(&self) -> ConnectionModel {
        match self {
            Connection::AwaitingLogin => ConnectionModel::AwaitingLogin,
            Connection::Joined { id } => ConnectionModel::Joined(id@),
            Connection::Finished => ConnectionModel::Finished,
        }
    }
}

/// What the caller must do after a frame or the end of a connection.
#[derive(Debug)]
pub enum Step {
    /// Carry out this action of the broker.
    Act(BrokerAction),
    /// Stop reading this connection and drop it.
    Stop,
    /// The frame's body does not decode as the message its type names.
    BadFrame,
}

impl Connection {
    /// A connection whose first frame has not come yet.
    pub fn new() -> (r: Self)
        ensures
            r@ == ConnectionModel::AwaitingLogin,
    {
        Connection::AwaitingLogin
    }

    /// Handles one frame of the connection. The first frame must be a login: where its id
    /// is free the user is registered and later frames are events of that id; where the id
    /// is online already the connection is refused with the notice and ends, leaving the
    /// user who is online as it was; any other first frame ends the connection.
    pub fn on_frame(&mut self, broker: &mut Broker, raw: RawTcpMessage) -> (r: Step)
        requires
            old(broker).wf(),
        ensures
            final(broker).wf(),
            match event_of_frame(raw@) {
                None => r is BadFrame && final(self)@ == old(self)@
                    && final(broker)@ == old(broker)@,
                Some(e) => match old(self)@ {
                    ConnectionModel::AwaitingLogin => match e {
                        EventModel::Login(id) => if old(broker)@.contains(id) {
                            final(self)@ == ConnectionModel::Finished && final(broker)@ == old(
                                broker,
                            )@ && (r matches Step::Act(a) && a@ == ActionModel::Refuse(
                                refusal_notice(),
                            ))
                        } else {
                            final(self)@ == ConnectionModel::Joined(id) && final(broker)@ == old(
                                broker,
                            )@.insert(id) && (r matches Step::Act(a) && a@ == ActionModel::Register)
                        },
                        _ => r is Stop && final(self)@ == ConnectionModel::Finished
                            && final(broker)@ == old(broker)@,
                    },
                    ConnectionModel::Joined(id) => final(self)@ == old(self)@ && final(broker)@
                        == online_after(old(broker)@, id, e) && (r matches Step::Act(a) && a@
                        == broker_action(old(broker)@, id, e)),
                    ConnectionModel::Finished => r is Stop && final(self)@ == old(self)@
                        && final(broker)@ == old(broker)@,
                },
            },
    {
        let event = match try_parse_raw_to_event(raw) {
            Some(e) => e,
            None => {
                return Step::BadFrame;
            },
        };
        match self {
            Connection::AwaitingLogin => match event {
                ServerEvent::Login { id } => {
                    let action = broker.on_event(id.as_str(), ServerEvent::NewPeer);
                    match action {
                        BrokerAction::Refuse { .. } => {
                            *self = Connection::Finished;
                        },
                        _ => {
                            *self = Connection::Joined { id };
                        },
                    }
                    Step::Act(action)
                },
                _ => {
                    *self = Connection::Finished;
                    Step::Stop
                },
            },
            Connection::Joined { id } => Step::Act(broker.on_event(id.as_str(), event)),
            Connection::Finished => Step::Stop,
        }
    }

    /// Handles the end of the connection: a logged-in user goes offline.
    pub fn on_closed(&mut self, broker: &mut Broker) -> (r: Step)
        requires
            old(broker).wf(),
        ensures
            final(broker).wf(),
            final(self)@ == ConnectionModel::Finished,
            match old(self)@ {
                ConnectionModel::Joined(id) => final(broker)@ == old(broker)@.remove(id) && (
                r matches Step::Act(a) && a@ == (if old(broker)@.contains(id) {
                    ActionModel::Close(id)
                } else {
                    ActionModel::Nothing
                })),
                _ => r is Stop && final(broker)@ == old(broker)@,
            },
    {
        let r = match self {
            Connection::Joined { id } => Step::Act(broker.remove_peer(id.as_str())),
            _ => Step::Stop,
        };
        *self = Connection::Finished;
        r
    }
}

/// A second login with an id that is online is refused with the notice, and who is online
/// does not change.
pub proof fn lemma_duplicate_login_refused(online: Set<Seq<char>>, id: Seq<char>)
    requires
        online.contains(id),
    ensures
        broker_action(online, id, EventModel::NewPeer) == ActionModel::Refuse(refusal_notice()),
        online_after(online, id, EventModel::NewPeer) == online,
{
    assert(online.insert(id) =~= online);
}

/// A user that logs in and then leaves is registered, then its connection is closed, and
/// who is online is as before.
pub proof fn lemma_login_then_exit(online: Set<Seq<char>>, id: Seq<char>)
    requires
        !online.contains(id),
    ensures
        broker_action(online, id, EventModel::NewPeer) == ActionModel::Register,
        broker_action(online_after(online, id, EventModel::NewPeer), id, EventModel::Exit)
            == ActionModel::Close(id),
        online_after(online_after(online, id, EventModel::NewPeer), id, EventModel::Exit)
            == online,
{
    assert(online.insert(id).remove(id) =~= online);
}

/// A message is delivered exactly when its addressee is online, as `msg from <sender>: <text>`
/// and a newline; who is online does not change.
pub proof fn lemma_message_delivery(
    online: Set<Seq<char>>,
    from: Seq<char>,
    to: Seq<char>,
    msg: Seq<char>,
)
    ensures
        online.contains(to) ==> broker_action(online, from, EventModel::Message(to, msg))
            == ActionModel::Deliver(to, delivery_text(from, msg)),
        !online.contains(to) ==> broker_action(online, from, EventModel::Message(to, msg))
            == ActionModel::Nothing,
        online_after(online, from, EventModel::Message(to, msg)) == online,
{
}

/// The server reads the frames a client builds as what the client meant: a login as its
/// id, an echo request as its text, a message as its addressee and text.
pub proof fn lemma_client_frames_understood(id: Seq<char>, to: Seq<char>, body: Seq<char>)
    ensures
        Login::encoding(id).len() <= crate::buffer::max_buffer_len() ==> event_of_frame(
            crate::types::frame_of::<Login>(1, id),
        ) == Some(EventModel::Login(id)),
        EchoRequest::encoding(body).len() <= crate::buffer::max_buffer_len() ==> event_of_frame(
            crate::types::frame_of::<EchoRequest>(2, body),
        ) == Some(EventModel::Echo(body)),
        MsgSendRequest::encoding((to, body)).len() <= crate::buffer::max_buffer_len()
            ==> event_of_frame(crate::types::frame_of::<MsgSendRequest>(3, (to, body))) == Some(
            EventModel::Message(to, body),
        ),
{
    if Login::encoding(id).len() <= crate::buffer::max_buffer_len() {
        crate::types::lemma_login_roundtrip(id);
    }
    if EchoRequest::encoding(body).len() <= crate::buffer::max_buffer_len() {
        crate::types::lemma_echo_request_roundtrip(body);
    }
    if MsgSendRequest::encoding((to, body)).len() <= crate::buffer::max_buffer_len() {
        crate::types::lemma_msg_send_request_roundtrip((to, body));
    }
}

/// An echo sends the sender's text back to the sender unchanged, whatever the text, when
/// the sender is online, and nothing otherwise; who is online does not change. More
/// generally the server writes only to users who are online.
pub proof fn lemma_echo_returns_text(online: Set<Seq<char>>, id: Seq<char>, msg: Seq<char>)
    ensures
        online.contains(id) ==> broker_action(online, id, EventModel::Echo(msg))
            == ActionModel::Deliver(id, msg),
        !online.contains(id) ==> broker_action(online, id, EventModel::Echo(msg))
            == ActionModel::Nothing,
        online_after(online, id, EventModel::Echo(msg)) == online,
        forall|e: EventModel|
            #[trigger] broker_action(online, id, e) matches ActionModel::Deliver(to, _) ==> online.contains(to),
{
}

} // verus!
