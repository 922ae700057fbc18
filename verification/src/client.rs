//! The client's own logic: turning typed command lines into frames, and showing what the
//! server sends.
use crate::buffer::max_buffer_len;
use crate::msg_types::{create_echo, create_send, EchoRequest, MsgSendRequest, RawTcpMessage};
use crate::text::{
    char_is_whitespace, lemma_index_of_after_prefix, lemma_trim_ends, lemma_trim_of_unpadded,
    chars_of, find_char, has_prefix, index_of, lemma_encode_utf8_concat,
    lemma_encode_utf8_subrange, starts_with, substring, trim, trim_range,
};
use crate::types::frame_of;
use crate::varint::lemma_varint_encoding_u64;
use crate::wire::string_field;
use colored::Colorize;
use vstd::prelude::*;
use vstd::string::StringExecFns;
use vstd::utf8::{decode_utf8, encode_utf8, valid_utf8};

verus! {

/// The arguments of a `:to` command: the first space ends the command word; of the rest,
/// trimmed, the first space ends the target user id, and the text after it, trimmed, is
/// the message.
pub open spec fn send_arguments(line: Seq<char>) -> Option<(Seq<char>, Seq<char>)> {
    match index_of(line, ' ') {
        None => None,
        Some(i) => {
            let left = trim(line.skip(i + 1int));
            match index_of(left, ' ') {
                None => None,
                Some(j) => Some((left.take(j as int), trim(left.skip(j + 1int)))),
            }
        },
    }
}

/// The argument of an `:echo` command: the text after the first space, trimmed.
pub open spec fn echo_argument(line: Seq<char>) -> Option<Seq<char>> {
    match index_of(line, ' ') {
        None => None,
        Some(i) => Some(trim(line.skip(i + 1int))),
    }
}

/// The frame a typed line stands for: `:to <id> <text>` sends text to a user,
/// `:echo <text>` asks for the text back; anything else is no command.
pub open spec fn line_frame(line: Seq<char>) -> Option<(i32, Seq<u8>)> {
    if starts_with(line, ":to"@) {
        match send_arguments(line) {
            Some((to, body)) => Some(frame_of::<MsgSendRequest>(3, (to, body))),
            None => None,
        }
    } else if starts_with(line, ":echo"@) {
        match echo_argument(line) {
            Some(body) => Some(frame_of::<EchoRequest>(2, body)),
            None => None,
        }
    } else {
        None
    }
}

/// A `string` field of a piece of text takes at most eleven bytes more than its text.
proof fn lemma_string_field_len(tag: u32, s: Seq<char>)
    requires
        tag == 1 || tag == 2,
        encode_utf8(s).len() <= u64::MAX,
    ensures
        string_field(tag, s).len() <= encode_utf8(s).len() + 11,
{
    lemma_varint_encoding_u64(encode_utf8(s).len() as u64);
    reveal_with_fuel(crate::varint::varint_encoding, 2);
}

/// The bounds, inside `v`, of the addressee and the text of a `:to` command that stands in
/// `v[from..to]`.
pub fn send_arguments_in(v: &Vec<char>, from: usize, to: usize) -> (r: Option<
    (usize, usize, usize, usize),
>)
    requires
        from <= to <= v@.len(),
    ensures
        match send_arguments(v@.subrange(from as int, to as int)) {
            Some((t, b)) => r matches Some((p, q, c, d)) && from <= p <= q < c <= d <= to
                && v@.subrange(p as int, q as int) == t && v@.subrange(c as int, d as int) == b,
            None => r is None,
        },
{
    let ghost line = v@.subrange(from as int, to as int);
    let idx = match find_char(v, from, to, ' ') {
        Some(i) => i,
        None => {
            return None;
        },
    };
    let (a, b) = trim_range(v, idx + 1, to);
    assert(v@.subrange(idx + 1, to as int) =~= line.skip(idx - from + 1));
    let idx2 = match find_char(v, a, b, ' ') {
        Some(j) => j,
        None => {
            return None;
        },
    };
    let (c, d) = trim_range(v, idx2 + 1, b);
    proof {
        let left = v@.subrange(a as int, b as int);
        assert(left.take(idx2 - a) =~= v@.subrange(a as int, idx2 as int));
        assert(left.skip(idx2 - a + 1) =~= v@.subrange(idx2 + 1, b as int));
    }
    Some((a, idx2, c, d))
}

/// The bounds, inside `v`, of the text of an `:echo` command that stands in `v[from..to]`.
pub fn echo_argument_in(v: &Vec<char>, from: usize, to: usize) -> (r: Option<(usize, usize)>)
    requires
        from <= to <= v@.len(),
    ensures
        match echo_argument(v@.subrange(from as int, to as int)) {
            Some(b) => r matches Some((c, d)) && from <= c <= d <= to && v@.subrange(
                c as int,
                d as int,
            ) == b,
            None => r is None,
        },
{
    let ghost line = v@.subrange(from as int, to as int);
    let idx = match find_char(v, from, to, ' ') {
        Some(i) => i,
        None => {
            return None;
        },
    };
    let (a, b) = trim_range(v, idx + 1, to);
    assert(v@.subrange(idx + 1, to as int) =~= line.skip(idx - from + 1));
    Some((a, b))
}

/// Two disjoint pieces of text take no more UTF-8 bytes than the whole.
proof fn lemma_two_pieces_utf8(s: Seq<char>, p: int, q: int, c: int, d: int)
    requires
        0 <= p <= q <= c <= d <= s.len(),
    ensures
        encode_utf8(s.subrange(p, q)).len() + encode_utf8(s.subrange(c, d)).len() <= encode_utf8(
            s,
        ).len(),
{
    lemma_encode_utf8_concat(s.subrange(p, q), s.subrange(q, c));
    lemma_encode_utf8_concat(s.subrange(p, q) + s.subrange(q, c), s.subrange(c, d));
    assert(s.subrange(p, q) + s.subrange(q, c) + s.subrange(c, d) =~= s.subrange(p, d));
    lemma_encode_utf8_subrange(s, p, d);
}

/// The frame for a typed command line, or `None` where the line is no command.
pub fn parse_line_to_msg(line: String) -> (r: Option<RawTcpMessage>)
    requires
        encode_utf8(line@).len() + 32 <= max_buffer_len(),
    ensures
        match line_frame(line@) {
            Some(f) => r matches Some(m) && m@ == f,
            None => r is None,
        },
{
    let v = chars_of(line.as_str());
    let n = v.len();
    assert(v@.subrange(0, n as int) =~= line@);
    if has_prefix(&v, ":to") {
        let (p, q, c, d) = match send_arguments_in(&v, 0, n) {
            Some(x) => x,
            None => {
                return None;
            },
        };
        proof {
            lemma_two_pieces_utf8(line@, p as int, q as int, c as int, d as int);
            lemma_string_field_len(1, line@.subrange(p as int, q as int));
            lemma_string_field_len(2, line@.subrange(c as int, d as int));
        }
        let target = substring(line.as_str(), p, q);
        let content = substring(line.as_str(), c, d);
        Some(create_send(target, content))
    } else if has_prefix(&v, ":echo") {
        let (c, d) = match echo_argument_in(&v, 0, n) {
            Some(x) => x,
            None => {
                return None;
            },
        };
        proof {
            lemma_encode_utf8_subrange(line@, c as int, d as int);
            lemma_string_field_len(1, line@.subrange(c as int, d as int));
        }
        let content = substring(line.as_str(), c, d);
        Some(create_echo(content))
    } else {
        None
    }
}

/// What a typed line asks the client to do.
#[derive(Debug)]
pub enum ClientCommand {
    /// Send this frame to the server.
    Send(RawTcpMessage),
    /// Leave: the client ends.
    Exit,
    /// Nothing: the line is no command.
    Nothing,
}

/// Whether a typed line is the `:exit` command.
pub open spec fn is_exit_line(line: Seq<char>) -> bool {
    starts_with(line, ":exit"@)
}

/// What a typed line asks of the client: `:to` and `:echo` send their frame, `:exit` ends
/// the client, anything else does nothing.
pub fn parse_command(line: String) -> (r: ClientCommand)
    requires
        encode_utf8(line@).len() + 32 <= max_buffer_len(),
    ensures
        match line_frame(line@) {
            Some(f) => r matches ClientCommand::Send(m) && m@ == f,
            None => if is_exit_line(line@) {
                r is Exit
            } else {
                r is Nothing
            },
        },
{
    let v = chars_of(line.as_str());
    let exit = has_prefix(&v, ":exit");
    match parse_line_to_msg(line) {
        Some(m) => ClientCommand::Send(m),
        None => if exit {
            ClientCommand::Exit
        } else {
            ClientCommand::Nothing
        },
    }
}

/// `std::io::Error`, the error of reading and writing.
#[verifier::external_type_specification]
#[verifier::external_body]
pub struct ExIoError(std::io::Error);

/// Why a line of the client's input could not be read (the errors of a line codec).
#[derive(Debug)]
pub enum LinesCodecError {
    /// The line is longer than the codec allows.
    MaxLineLengthExceeded,
    /// Reading failed.
    Io(std::io::Error),
}

/// `std::io::Error::from(std::io::ErrorKind::Other)`: an I/O error of kind `Other`. The kind
/// is not stated, since Verus sees nothing inside an I/O error.
#[verifier::external_body]
fn other_io_error() -> std::io::Error {
    std::io::Error::from(std::io::ErrorKind::Other)
}

/// What the client does with each line read from its input: a command line becomes its
/// frame, any other line is dropped; a read error becomes an I/O error, the one it holds
/// or, for a line that is too long, an error of kind `Other`.
pub fn transform(res: Result<String, LinesCodecError>) -> (r: Option<
    Result<RawTcpMessage, std::io::Error>,
>)
    requires
        res matches Ok(line) ==> encode_utf8(line@).len() + 32 <= max_buffer_len(),
    ensures
        match res {
            Ok(line) => match line_frame(line@) {
                Some(f) => r matches Some(Ok(m)) && m@ == f,
                None => r is None,
            },
            Err(LinesCodecError::Io(e)) => r matches Some(Err(x)) && x == e,
            Err(LinesCodecError::MaxLineLengthExceeded) => r matches Some(Err(_)),
        },
{
    match res {
        Ok(line) => match parse_line_to_msg(line) {
            Some(m) => Some(Ok(m)),
            None => None,
        },
        Err(LinesCodecError::MaxLineLengthExceeded) => Some(Err(other_io_error())),
        Err(LinesCodecError::Io(e)) => Some(Err(e)),
    }
}

/// The escape sequence that turns the terminal's text green.
pub open spec fn green_start() -> Seq<char> {
    seq!['\u{1b}', '[', '3', '2', 'm']
}

/// The escape sequence that resets the terminal's colours.
pub open spec fn color_reset() -> Seq<char> {
    seq!['\u{1b}', '[', '0', 'm']
}

/// Whether `s` holds the reset sequence somewhere.
pub open spec fn holds_reset(s: Seq<char>) -> bool {
    exists|i: int| 0 <= i && i + 4 <= s.len() && #[trigger] s.subrange(i, i + 4) == color_reset()
}

/// Whether `shown` is how the `colored` crate may display `text` in green: as it is, or
/// wrapped in the green and reset sequences (exactly so where the text holds no reset
/// sequence of its own).
pub open spec fn green_display(text: Seq<char>, shown: Seq<char>) -> bool {
    shown == text || ({
        &&& starts_with(shown, green_start())
        &&& shown.len() >= green_start().len() + color_reset().len()
        &&& shown.skip(shown.len() - color_reset().len()) == color_reset()
        &&& !holds_reset(text) ==> shown == green_start() + text + color_reset()
    })
}

/// `colored::Colorize::green`, displayed: where colouring is off (the `colored` crate decides
/// from the environment and the terminal) the text as it is; where it is on, the green
/// sequence, the text, and the reset sequence (a reset inside the text is followed by the
/// green sequence again, which is not stated here).
#[verifier::external_body]
fn green(s: &str) -> (r: String)
    ensures
        green_display(s@, r@),
{
    format!("{}", s.green())
}

/// `String::from_utf8`: the text that `bytes` spell, where they are valid UTF-8.
#[verifier::external_body]
fn string_from_utf8(bytes: Vec<u8>) -> (r: Option<String>)
    ensures
        match r {
            Some(s) => valid_utf8(bytes@) && s@ == decode_utf8(bytes@),
            None => !valid_utf8(bytes@),
        },
{
    String::from_utf8(bytes).ok()
}

/// The bytes the client prints for text from the server, once coloured: `> `, the text,
/// a newline.
pub fn frame_incoming_text(shown: &str) -> (r: Vec<u8>)
    ensures
        r@ == encode_utf8(seq!['>', ' '] + shown@ + seq!['\n']),
{
    let mut out = String::from_str("> ");
    out.append(shown);
    out.append("\n");
    proof {
        reveal_strlit("> ");
        reveal_strlit("\n");
        assert(out@ =~= seq!['>', ' '] + shown@ + seq!['\n']);
    }
    out.as_str().as_bytes_vec()
}

/// What the client prints for bytes from the server: they are text, shown green.
pub fn render_incoming(bytes: Vec<u8>) -> (r: Vec<u8>)
    requires
        valid_utf8(bytes@),
    ensures
        exists|shown: Seq<char>|
            #[trigger] green_display(decode_utf8(bytes@), shown) && r@ == encode_utf8(
                seq!['>', ' '] + shown + seq!['\n'],
            ),
{
    let ghost old_bytes = bytes@;
    let text = match string_from_utf8(bytes) {
        Some(s) => s,
        None => {
            assert(false);
            String::new()
        },
    };
    let shown = green(text.as_str());
    let r = frame_incoming_text(shown.as_str());
    assert(green_display(decode_utf8(old_bytes), shown@));
    r
}

/// The text of a `:to` command is the whole trimmed rest of the line after the addressee,
/// of any length: `:to <id> <text>`, with an id free of whitespace and a text that neither
/// begins nor ends with whitespace, sends exactly that text to exactly that id.
pub proof fn lemma_to_command_keeps_text(id: Seq<char>, text: Seq<char>)
    requires
        id.len() > 0,
        forall|k: int| 0 <= k < id.len() ==> !char_is_whitespace(#[trigger] id[k]),
        text.len() > 0,
        trim(text) == text,
    ensures
        send_arguments(":to"@ + seq![' '] + id + seq![' '] + text) == Some((id, text)),
        line_frame(":to"@ + seq![' '] + id + seq![' '] + text) == Some(
            frame_of::<MsgSendRequest>(3, (id, text)),
        ),
{
    reveal_strlit(":to");
    let cmd = ":to"@;
    let m = id + seq![' '] + text;
    let line = cmd + seq![' '] + m;
    assert(cmd + seq![' '] + id + seq![' '] + text =~= line);
    assert(forall|k: int| 0 <= k < cmd.len() ==> cmd[k] != ' ');
    lemma_index_of_after_prefix(cmd, ' ', m);
    assert(line.skip(cmd.len() + 1int) =~= m);
    lemma_trim_ends(text);
    assert(m[0] == id[0]);
    assert(m.last() == text.last());
    lemma_trim_of_unpadded(m);
    assert(forall|k: int| 0 <= k < id.len() ==> id[k] != ' ') by {
        assert(char_is_whitespace(' '));
    }
    lemma_index_of_after_prefix(id, ' ', text);
    assert(m.take(id.len() as int) =~= id);
    assert(m.skip(id.len() + 1int) =~= text);
    assert(line.take(cmd.len() as int) =~= cmd);
}

} // verus!
