//! The chat server of the plain line protocol: a connection first sends its name, then
//! lines `<name>,<name>,...: <text>` that go to each named user who is online.
use crate::text::{
    chars_of, find_char, index_of, lemma_index_of_from, lemma_trim_idempotent, split_on,
    substring, trim, trim_range,
};
use vstd::hash_map::StringHashMap;
use vstd::prelude::*;
use vstd::string::StringExecFns;

verus! {

/// The name that the chat server refuses, which ends the connection.
pub open spec fn refused_name() -> Seq<char> {
    "shit"@
}

/// The name a connection announces with its first line; the refused name gives `None`,
/// and the connection ends.
pub fn check_name(line: String) -> (r: Option<String>)
    ensures
        line@ == refused_name() ==> r is None,
        line@ != refused_name() ==> (r matches Some(n) && n@ == line@),
{
    if line == String::from_str("shit") {
        None
    } else {
        Some(line)
    }
}

/// What a chat line means: before the first `:` the addressees, separated by commas and
/// each trimmed; after it the text, trimmed. A line without `:` means nothing.
pub open spec fn chat_line(line: Seq<char>) -> Option<(Seq<Seq<char>>, Seq<char>)> {
    match index_of(line, ':') {
        None => None,
        Some(i) => Some(
            (
                split_on(line.take(i as int), ',').map_values(|p: Seq<char>| trim(p)),
                trim(trim(line.skip(i + 1int))),
            ),
        ),
    }
}

/// The strings' texts.
pub open spec fn texts(v: Seq<String>) -> Seq<Seq<char>> {
    v.map_values(|s: String| s@)
}

/// The addressees and the text of a chat line, or `None` where the line has no `:`.
pub fn parse_chat_line(line: &str) -> (r: Option<(Vec<String>, String)>)
    ensures
        match chat_line(line@) {
            Some((to, msg)) => r matches Some((names, text)) && texts(names@) == to && text@
                == msg,
            None => r is None,
        },
{
    let v = chars_of(line);
    let n = v.len();
    assert(v@.subrange(0, n as int) =~= line@);
    let colon = match find_char(&v, 0, n, ':') {
        Some(i) => i,
        None => {
            return None;
        },
    };
    let ghost dest = v@.subrange(0, colon as int);
    assert(dest =~= line@.take(colon as int));
    let mut names: Vec<String> = Vec::new();
    let mut start: usize = 0;
    loop
        invariant_except_break
            texts(names@) + split_on(v@.subrange(start as int, colon as int), ',').map_values(
                |p: Seq<char>| trim(p),
            ) == split_on(dest, ',').map_values(|p: Seq<char>| trim(p)),
        invariant
            start <= colon < n,
            n == v@.len(),
            v@ == line@,
            dest == v@.subrange(0, colon as int),
        ensures
            texts(names@) == split_on(dest, ',').map_values(|p: Seq<char>| trim(p)),
        decreases colon - start,
    {
        let ghost piece = v@.subrange(start as int, colon as int);
        proof {
            lemma_index_of_from(piece, ',', 0);
        }
        match find_char(&v, start, colon, ',') {
            Some(k) => {
                let (a, b) = trim_range(&v, start, k);
                let name = substring(line, a, b);
                let ghost before = names@;
                names.push(name);
                proof {
                    assert(piece.take(k - start) =~= v@.subrange(start as int, k as int));
                    assert(piece.skip(k - start + 1) =~= v@.subrange(k + 1, colon as int));
                    assert(split_on(piece, ',') == seq![v@.subrange(start as int, k as int)]
                        + split_on(v@.subrange(k + 1, colon as int), ','));
                    assert(texts(names@) =~= texts(before).push(trim(v@.subrange(start as int, k as int))));
                    assert(split_on(piece, ',').map_values(|p: Seq<char>| trim(p)) =~= seq![
                        trim(v@.subrange(start as int, k as int)),
                    ] + split_on(v@.subrange(k + 1, colon as int), ',').map_values(
                        |p: Seq<char>| trim(p),
                    ));
                    assert(texts(names@) + split_on(v@.subrange(k + 1, colon as int), ',').map_values(
                        |p: Seq<char>| trim(p),
                    ) =~= texts(before) + split_on(piece, ',').map_values(|p: Seq<char>| trim(p)));
                }
                start = k + 1;
            },
            None => {
                let (a, b) = trim_range(&v, start, colon);
                let name = substring(line, a, b);
                let ghost before = names@;
                names.push(name);
                proof {
                    assert(split_on(piece, ',') == seq![piece]);
                    assert(texts(names@) =~= texts(before).push(trim(piece)));
                    assert(texts(names@) =~= texts(before) + split_on(piece, ',').map_values(
                        |p: Seq<char>| trim(p),
                    ));
                }
                break;
            },
        }
    }
    let (a, b) = trim_range(&v, colon + 1, n);
    proof {
        assert(v@.subrange(colon + 1, n as int) =~= line@.skip(colon + 1));
        lemma_trim_idempotent(line@.skip(colon + 1));
    }
    let text = substring(line, a, b);
    Some((names, text))
}

/// What a chat connection hands the broker.
#[derive(Debug)]
pub enum ChatEvent {
    /// A connection announced `name` (its writer stays with the caller).
    NewPeer { name: String },
    /// User `from` sends `msg` to each user in `to`.
    Message { from: String, to: Vec<String>, msg: String },
}

/// What the caller must do after a chat event.
#[derive(Debug)]
pub enum ChatAction {
    /// Start a writer for the connection that announced `name`.
    StartWriter { name: String },
    /// Nothing: the name is online already.
    Ignore,
    /// Send each text to the user named with it, in this order.
    Send { deliveries: Vec<(String, String)> },
}

/// The text a user receives in the chat.
pub open spec fn chat_text(from: Seq<char>, msg: Seq<char>) -> Seq<char> {
    "from "@ + from + ": "@ + msg + "\n"@
}

/// What a message from `from` to the users `to` makes: for each addressee that is
/// online, in order, the addressee and the text.
pub open spec fn deliveries(
    online: Set<Seq<char>>,
    from: Seq<char>,
    to: Seq<Seq<char>>,
    msg: Seq<char>,
) -> Seq<(Seq<char>, Seq<char>)>
    decreases to.len(),
{
    if to.len() == 0 {
        Seq::empty()
    } else {
        let rest = deliveries(online, from, to.drop_last(), msg);
        if online.contains(to.last()) {
            rest.push((to.last(), chat_text(from, msg)))
        } else {
            rest
        }
    }
}

/// The texts of pairs of strings.
pub open spec fn text_pairs(v: Seq<(String, String)>) -> Seq<(Seq<char>, Seq<char>)> {
    v.map_values(|p: (String, String)| (p.0@, p.1@))
}

/// The users online in the chat.
pub struct ChatBroker {
    peers: StringHashMap<()>,
}

impl View for ChatBroker {
    type V = Set<Seq<char>>;

    closed spec fn view(&self) -> Set<Seq<char>> {
        self.peers@.dom()
    }
}

impl ChatBroker {
    /// Nobody is online.
    pub fn new() -> (r: Self)
        ensures
            r@ == Set::<Seq<char>>::empty(),
    {
        let r = ChatBroker { peers: StringHashMap::new() };
        assert(r@ =~= Set::<Seq<char>>::empty());
        r
    }

    /// The deliveries of a message from `from` to the users `to`.
    pub fn route(&self, from: &str, to: &Vec<String>, msg: &str) -> (r: Vec<(String, String)>)
        ensures
            text_pairs(r@) == deliveries(self@, from@, texts(to@), msg@),
    {
        let mut out: Vec<(String, String)> = Vec::new();
        let mut i: usize = 0;
        while i < to.len()
            invariant
                i <= to@.len(),
                text_pairs(out@) == deliveries(self@, from@, texts(to@).take(i as int), msg@),
            decreases to.len() - i,
        {
            let ghost before = out@;
            assert(texts(to@).take(i + 1int).drop_last() =~= texts(to@).take(i as int));
            if self.peers.contains_key(to[i].as_str()) {
                let mut text = String::from_str("from ");
                text.append(from);
                text.append(": ");
                text.append(msg);
                text.append("\n");
                let name = to[i].clone();
                out.push((name, text));
                assert(text_pairs(out@) =~= text_pairs(before).push(
                    (texts(to@)[i as int], chat_text(from@, msg@)),
                ));
            } else {
                assert(text_pairs(out@) =~= text_pairs(before));
            }
            i = i + 1;
        }
        assert(texts(to@).take(to@.len() as int) =~= texts(to@));
        out
    }

    /// Handles a chat event and says what the caller must do: a new name is registered and
    /// gets a writer, a name online already is ignored, a message goes to the addressees
    /// that are online.
    pub fn on_event(&mut self, event: ChatEvent) -> (r: ChatAction)
        ensures
            match event {
                ChatEvent::NewPeer { name } => if old(self)@.contains(name@) {
                    r is Ignore && final(self)@ == old(self)@
                } else {
                    (r matches ChatAction::StartWriter { name: n } && n@ == name@) && final(self)@
                        == old(self)@.insert(name@)
                },
                ChatEvent::Message { from, to, msg } => final(self)@ == old(self)@ && (
                r matches ChatAction::Send { deliveries: d } && text_pairs(d@) == deliveries(
                    old(self)@,
                    from@,
                    texts(to@),
                    msg@,
                )),
            },
    {
        match event {
            ChatEvent::NewPeer { name } => {
                if self.peers.contains_key(name.as_str()) {
                    ChatAction::Ignore
                } else {
                    let key = name.clone();
                    self.peers.insert(key, ());
                    assert(self@ =~= old(self)@.insert(name@));
                    ChatAction::StartWriter { name }
                }
            },
            ChatEvent::Message { from, to, msg } => {
                let d = self.route(from.as_str(), &to, msg.as_str());
                ChatAction::Send { deliveries: d }
            },
        }
    }
}

/// The addressees of a chat line end at its first `:`; everything after that colon,
/// colons included, is the text, trimmed. So for a line `<names>:<text>` whose names hold
/// no `:`, the addressees are the comma-separated names, each trimmed, and the text is the
/// trimmed `<text>` whole.
pub proof fn lemma_chat_line_first_colon(names: Seq<char>, text: Seq<char>)
    requires
        forall|k: int| 0 <= k < names.len() ==> names[k] != ':',
    ensures
        chat_line(names + seq![':'] + text) == Some(
            (split_on(names, ',').map_values(|p: Seq<char>| trim(p)), trim(text)),
        ),
{
    let line = names + seq![':'] + text;
    assert forall|k: int| 0 <= k < names.len() implies line[k] != ':' by {
        assert(line[k] == names[k]);
    }
    assert(line[names.len() as int] == ':');
    lemma_index_of_from(line, ':', 0);
    let i = index_of(line, ':');
    assert(i == Some(names.len())) by {
        match i {
            Some(j) => {
                if j < names.len() {
                    assert(line[j as int] == names[j as int]);
                }
                if j > names.len() {
                    assert(line[names.len() as int] != ':');
                }
            },
            None => {},
        }
    }
    assert(line.take(names.len() as int) =~= names);
    assert(line.skip(names.len() + 1int) =~= text);
    lemma_trim_idempotent(text);
}

/// Every addressee that is online gets the message, once each time it is named and in the
/// order named, whoever the sender is; the names of the deliveries are the addressees that
/// are online, and each delivery carries `from <sender>: <text>` and a newline.
pub proof fn lemma_deliveries_reach_online_addressees(
    online: Set<Seq<char>>,
    from: Seq<char>,
    to: Seq<Seq<char>>,
    msg: Seq<char>,
)
    ensures
        deliveries(online, from, to, msg).map_values(|d: (Seq<char>, Seq<char>)| d.0) == to.filter(
            |a: Seq<char>| online.contains(a),
        ),
        forall|k: int|
            0 <= k < deliveries(online, from, to, msg).len() ==> (#[trigger] deliveries(
                online,
                from,
                to,
                msg,
            )[k]).1 == chat_text(from, msg),
    decreases to.len(),
{
    reveal(Seq::filter);
    if to.len() > 0 {
        lemma_deliveries_reach_online_addressees(online, from, to.drop_last(), msg);
        let rest = deliveries(online, from, to.drop_last(), msg);
        if online.contains(to.last()) {
            assert(rest.push((to.last(), chat_text(from, msg))).map_values(
                |d: (Seq<char>, Seq<char>)| d.0,
            ) =~= rest.map_values(|d: (Seq<char>, Seq<char>)| d.0).push(to.last()));
        }
    } else {
        assert(deliveries(online, from, to, msg).map_values(|d: (Seq<char>, Seq<char>)| d.0)
            =~= to.filter(|a: Seq<char>| online.contains(a)));
    }
}

} // verus!
