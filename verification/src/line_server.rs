//! The server of the line protocol: each line a connection sends is `<id>|<command>`, with
//! the commands `:to <id> <text>`, `:echo <text>` and `:exit`.
use crate::client::{echo_argument, echo_argument_in, send_arguments, send_arguments_in};
use crate::server::PeerStatus;
use crate::text::{
    all_whitespace, chars_of, find_char, has_prefix_in, index_of, index_of_from, lemma_trim_padding,
    starts_with, substring, trim, trim_range,
};
use vstd::hash_map::StringHashMap;
use vstd::prelude::*;
use vstd::string::StringExecFns;

verus! {

/// What a connection of the line protocol asks of the server.
#[derive(Debug)]
pub enum Event {
    /// A connection announced user `id` (its writer stays with the caller).
    NewPeer { id: String },
    /// User `id` sends `msg` to user `to`.
    Message { id: String, to: String, msg: String },
    /// User `id` leaves.
    Exit { id: String },
}

/// The model of an `Event`.
pub enum LineEventModel {
    NewPeer(Seq<char>),
    Message(Seq<char>, Seq<char>, Seq<char>),
    Exit(Seq<char>),
}

impl View for Event {
    type V = LineEventModel;

    open spec fn view(&self) -> LineEventModel {
        match self {
            Event::NewPeer { id } => LineEventModel::NewPeer(id@),
            Event::Message { id, to, msg } => LineEventModel::Message(id@, to@, msg@),
            Event::Exit { id } => LineEventModel::Exit(id@),
        }
    }
}

/// The event a line stands for: before the first `|` the sender's id; after it, trimmed,
/// `:to <id> <text>` sends text to a user, `:echo <text>` sends it to the sender, `:exit`
/// leaves; anything else is no event.
pub open spec fn line_event(line: Seq<char>) -> Option<LineEventModel> {
    match index_of(line, '|') {
        None => None,
        Some(idx) => {
            let source = line.take(idx as int);
            let left = trim(line.skip(idx + 1int));
            if starts_with(left, ":to"@) {
                match send_arguments(left) {
                    Some((to, msg)) => Some(LineEventModel::Message(source, to, msg)),
                    None => None,
                }
            } else if starts_with(left, ":echo"@) {
                match echo_argument(left) {
                    Some(msg) => Some(LineEventModel::Message(source, source, msg)),
                    None => None,
                }
            } else if starts_with(left, ":exit"@) {
                Some(LineEventModel::Exit(source))
            } else {
                None
            }
        },
    }
}

/// The event a line stands for, or `None` where it stands for none.
pub fn parse_raw(line: String) -> (r: Option<Event>)
    ensures
        match line_event(line@) {
            Some(e) => r matches Some(ev) && ev@ == e,
            None => r is None,
        },
{
    let v = chars_of(line.as_str());
    let n = v.len();
    assert(v@.subrange(0, n as int) =~= line@);
    let idx = match find_char(&v, 0, n, '|') {
        Some(i) => i,
        None => {
            return None;
        },
    };
    let (a, b) = trim_range(&v, idx + 1, n);
    assert(v@.subrange(idx + 1, n as int) =~= line@.skip(idx + 1));
    assert(v@.subrange(0, idx as int) =~= line@.take(idx as int));
    let source = substring(line.as_str(), 0, idx);
    if has_prefix_in(&v, a, b, ":to") {
        match send_arguments_in(&v, a, b) {
            Some((p, q, c, d)) => Some(
                Event::Message {
                    id: source,
                    to: substring(line.as_str(), p, q),
                    msg: substring(line.as_str(), c, d),
                },
            ),
            None => None,
        }
    } else if has_prefix_in(&v, a, b, ":echo") {
        match echo_argument_in(&v, a, b) {
            Some((c, d)) => {
                let to = substring(line.as_str(), 0, idx);
                Some(Event::Message { id: source, to, msg: substring(line.as_str(), c, d) })
            },
            None => None,
        }
    } else if has_prefix_in(&v, a, b, ":exit") {
        Some(Event::Exit { id: source })
    } else {
        None
    }
}

/// The first `|` in a line is the one after the sender's id, where the id holds none.
proof fn lemma_bar_after_source(src: Seq<char>, rest: Seq<char>, i: nat)
    requires
        i <= src.len(),
        forall|k: int| 0 <= k < src.len() ==> src[k] != '|',
    ensures
        index_of_from(src + seq!['|'] + rest, '|', i) == Some(src.len()),
    decreases src.len() - i,
{
    let line = src + seq!['|'] + rest;
    if i < src.len() {
        assert(line[i as int] == src[i as int]);
        lemma_bar_after_source(src, rest, i + 1);
    } else {
        assert(line[src.len() as int] == '|');
    }
}

/// Whitespace between the `|` and the command, and at the end of the line, changes
/// nothing: `<id>|<command>` and `<id>|  <command>  ` stand for the same event.
pub proof fn lemma_line_event_padding(
    src: Seq<char>,
    cmd: Seq<char>,
    w1: Seq<char>,
    w2: Seq<char>,
)
    requires
        forall|k: int| 0 <= k < src.len() ==> src[k] != '|',
        all_whitespace(w1),
        all_whitespace(w2),
    ensures
        line_event(src + seq!['|'] + cmd) == line_event(src + seq!['|'] + (w1 + cmd + w2)),
{
    let plain = src + seq!['|'] + cmd;
    let padded = src + seq!['|'] + (w1 + cmd + w2);
    lemma_bar_after_source(src, cmd, 0);
    lemma_bar_after_source(src, w1 + cmd + w2, 0);
    assert(plain.take(src.len() as int) =~= src);
    assert(padded.take(src.len() as int) =~= src);
    assert(plain.skip(src.len() + 1int) =~= cmd);
    assert(padded.skip(src.len() + 1int) =~= w1 + cmd + w2);
    lemma_trim_padding(w1, cmd, w2);
}

/// What the line server keeps of a connection (its writer stays with the caller); it
/// starts unauthorized.
pub struct Peer {
    pub status: PeerStatus,
}

impl Peer {
    /// The peer of a connection that has just announced itself.
    pub fn new() -> (r: Self)
        ensures
            r.status is Unauthorized,
    {
        Peer { status: PeerStatus::Unauthorized }
    }
}

/// What the caller must do after an event of the line protocol.
#[derive(Debug)]
pub enum LineAction {
    /// Keep the writer of the connection that just announced itself.
    Register,
    /// Shut down the connection that just announced an id that is online.
    Reject,
    /// Write `text` to the connection of user `to`.
    Deliver { to: String, text: String },
    /// Shut down the connection of user `id` and forget it.
    Close { id: String },
    /// Nothing.
    Nothing,
}

/// The model of a `LineAction`.
pub enum LineActionModel {
    Register,
    Reject,
    Deliver(Seq<char>, Seq<char>),
    Close(Seq<char>),
    Nothing,
}

impl View for LineAction {
    type V = LineActionModel;

    open spec fn view(&self) -> LineActionModel {
        match self {
            LineAction::Register => LineActionModel::Register,
            LineAction::Reject => LineActionModel::Reject,
            LineAction::Deliver { to, text } => LineActionModel::Deliver(to@, text@),
            LineAction::Close { id } => LineActionModel::Close(id@),
            LineAction::Nothing => LineActionModel::Nothing,
        }
    }
}

/// Who is online after an event: an announcement adds its id, leaving removes it.
pub open spec fn line_online_after(online: Set<Seq<char>>, e: LineEventModel) -> Set<Seq<char>> {
    match e {
        LineEventModel::NewPeer(id) => online.insert(id),
        LineEventModel::Exit(id) => online.remove(id),
        _ => online,
    }
}

/// What the caller must do after an event while `online` are online.
pub open spec fn line_action(online: Set<Seq<char>>, e: LineEventModel) -> LineActionModel {
    match e {
        LineEventModel::NewPeer(id) => if online.contains(id) {
            LineActionModel::Reject
        } else {
            LineActionModel::Register
        },
        LineEventModel::Message(id, to, msg) => if online.contains(to) {
            LineActionModel::Deliver(to, crate::server::delivery_text(id, msg))
        } else {
            LineActionModel::Nothing
        },
        LineEventModel::Exit(id) => if online.contains(id) {
            LineActionModel::Close(id)
        } else {
            LineActionModel::Nothing
        },
    }
}

/// The users online in the line protocol.
pub struct Broker {
    peers: StringHashMap<Peer>,
}

impl View for Broker {
    type V = Set<Seq<char>>;

    closed spec fn view(&self) -> Set<Seq<char>> {
        self.peers@.dom()
    }
}

impl Broker {
    /// Every peer is still unauthorized: the line protocol never authorizes.
    pub closed spec fn wf(&self) -> bool {
        forall|k: Seq<char>| #[trigger] self.peers@.contains_key(k) ==> self.peers@[k].status is Unauthorized
    }

    /// Nobody is online.
    pub fn new() -> (r: Self)
        ensures
            r.wf(),
            r@ == Set::<Seq<char>>::empty(),
    {
        let r = Broker { peers: StringHashMap::new() };
        assert(r@ =~= Set::<Seq<char>>::empty());
        r
    }

    /// Handles an event and says what the caller must do.
    pub fn on_event(&mut self, event: Event) -> (r: LineAction)
        requires
            old(self).wf(),
        ensures
            final(self).wf(),
            final(self)@ == line_online_after(old(self)@, event@),
            r@ == line_action(old(self)@, event@),
    {
        match event {
            Event::NewPeer { id } => {
                if self.peers.contains_key(id.as_str()) {
                    assert(self@ =~= old(self)@.insert(id@));
                    LineAction::Reject
                } else {
                    self.peers.insert(id, Peer::new());
                    assert(self@ =~= old(self)@.insert(event@->NewPeer_0));
                    LineAction::Register
                }
            },
            Event::Message { id, to, msg } => {
                if self.peers.contains_key(to.as_str()) {
                    let mut content = String::from_str("msg from ");
                    content.append(id.as_str());
                    content.append(": ");
                    content.append(msg.as_str());
                    content.append("\n");
                    LineAction::Deliver { to, text: content }
                } else {
                    LineAction::Nothing
                }
            },
            Event::Exit { id } => self.remove_peer(id),
        }
    }

    /// User `id` goes offline: its connection must be shut down, if it was online.
    pub fn remove_peer(&mut self, id: String) -> (r: LineAction)
        requires
            old(self).wf(),
        ensures
            final(self).wf(),
            final(self)@ == old(self)@.remove(id@),
            r@ == (if old(self)@.contains(id@) {
                LineActionModel::Close(id@)
            } else {
                LineActionModel::Nothing
            }),
    {
        if self.peers.contains_key(id.as_str()) {
            self.peers.remove(id.as_str());
            assert(self@ =~= old(self)@.remove(id@));
            LineAction::Close { id }
        } else {
            assert(self@ =~= old(self)@.remove(id@));
            LineAction::Nothing
        }
    }
}

/// The line server writes only to users who are online: whatever the event, a delivery
/// goes to someone online. A message for a user who is not online is dropped and changes
/// nothing; one for a user who is online reaches that user as `msg from <sender>: <text>`
/// and a newline.
pub proof fn lemma_line_delivery_only_to_online(online: Set<Seq<char>>, e: LineEventModel)
    ensures
        line_action(online, e) matches LineActionModel::Deliver(to, _) ==> online.contains(to),
        e matches LineEventModel::Message(id, to, msg) ==> {
            &&& line_online_after(online, e) == online
            &&& !online.contains(to) ==> line_action(online, e) == LineActionModel::Nothing
            &&& online.contains(to) ==> line_action(online, e) == LineActionModel::Deliver(
                to,
                crate::server::delivery_text(id, msg),
            )
        },
{
}

} // verus!
