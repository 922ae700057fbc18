//! The messages of the protocol, the frame that carries them, and building frames from
//! messages.
use crate::buffer::{
    buffer_bytes, buffer_contents, buffer_with_capacity, max_buffer_len,
};
use crate::message::{decode, decode_model, encode, merge_model, ProtoMessage, ProtoRoundTrip};
use crate::varint::varint_encoding;
use crate::wire::{
    bytes_encode, bytes_encoded_len, bytes_merge, int32_encode, int32_encoded_len, int32_field,
    int32_merge, int32_value_decoding, key_encoding, lemma_int32_value_roundtrip,
    lemma_key_roundtrip, lemma_length_delimited_roundtrip,
    lemma_value_decoding_len, length_delimited_decoding, length_delimited_field, skip_field,
    skipped_group_len, skipped_value_len, string_encode, string_encoded_len, string_field,
    string_merge, string_value_decoding, WireKind,
};
use bytes::BytesMut;
use prost::DecodeError;
use vstd::prelude::*;
use vstd::slice::slice_to_vec;
use vstd::utf8::encode_utf8;

verus! {

/// The frame that travels between client and server: a message type and the encoded
/// message (field 1: `int32 type_id`, field 2: `bytes body`).
#[derive(Debug)]
pub struct RawTcpMessage {
    pub type_id: i32,
    pub body: Vec<u8>,
}

/// A client announces its user id (field 1: `string id`).
#[derive(Debug)]
pub struct Login {
    pub id: String,
}

/// A client asks the server to send text back (field 1: `string body`).
#[derive(Debug)]
pub struct EchoRequest {
    pub body: String,
}

/// A client sends text to another user (field 1: `string to_id`, field 2: `string body`).
#[derive(Debug)]
pub struct MsgSendRequest {
    pub to_id: String,
    pub body: String,
}

/// Why a message or a frame could not be read.
#[derive(Debug)]
pub enum DecodeFailure {
    /// The protobuf decoder refused the bytes.
    Protobuf(DecodeError),
    /// A length prefix does not fit in `usize`.
    LengthDelimiterTooLarge,
}

/// How many bytes skipping the value of an unknown field takes.
pub open spec fn skip_model(wire: WireKind, tag: u32, bytes: Seq<u8>) -> Option<nat> {
    if wire == WireKind::StartGroup {
        skipped_group_len(tag, bytes)
    } else {
        skipped_value_len(wire, bytes)
    }
}

/// An optional field: proto3 writes nothing for a field at its default.
pub open spec fn unless_default(is_default: bool, field: Seq<u8>) -> Seq<u8> {
    if is_default {
        Seq::empty()
    } else {
        field
    }
}

/// Skips the value of a field that the message does not know.
fn skip_unknown<'a>(wire: WireKind, tag: u32, buf: &'a [u8]) -> (r: Result<&'a [u8], DecodeError>)
    ensures
        match skip_model(wire, tag, buf@) {
            Some(n) => n <= buf@.len() && (r matches Ok(rest) && rest@ == buf@.skip(n as int)),
            None => r is Err,
        },
{
    proof {
        lemma_value_decoding_len(wire, tag, buf@);
    }
    skip_field(wire, tag, buf)
}

impl View for RawTcpMessage {
    type V = (i32, Seq<u8>);

    open spec fn view(&self) -> (i32, Seq<u8>) {
        (self.type_id, self.body@)
    }
}

impl ProtoMessage for RawTcpMessage {
    open spec fn empty_model() -> (i32, Seq<u8>) {
        (0, Seq::empty())
    }

    open spec fn encoding(m: (i32, Seq<u8>)) -> Seq<u8> {
        unless_default(m.0 == 0, int32_field(1, m.0)) + unless_default(
            m.1.len() == 0,
            length_delimited_field(2, m.1),
        )
    }

    open spec fn merge_field_model(m: (i32, Seq<u8>), tag: u32, wire: WireKind, bytes: Seq<u8>) -> Option<
        ((i32, Seq<u8>), nat),
    > {
        if tag == 1 {
            match int32_value_decoding(wire, bytes) {
                Some((v, n)) => Some(((v, m.1), n)),
                None => None,
            }
        } else if tag == 2 {
            match length_delimited_decoding(wire, bytes) {
                Some((data, n)) => Some(((m.0, data), n)),
                None => None,
            }
        } else {
            match skip_model(wire, tag, bytes) {
                Some(n) => Some((m, n)),
                None => None,
            }
        }
    }

    fn empty() -> (r: Self) {
        RawTcpMessage { type_id: 0, body: Vec::new() }
    }

    fn encoded_len(&self) -> (n: usize) {
        let a: usize = if self.type_id != 0 {
            int32_encoded_len(1, &self.type_id)
        } else {
            0
        };
        let b: usize = if self.body.len() != 0 {
            bytes_encoded_len(2, &self.body)
        } else {
            0
        };
        a + b
    }

    fn encode_raw(&self, buf: &mut BytesMut) {
        if self.type_id != 0 {
            int32_encode(1, &self.type_id, buf);
        }
        if self.body.len() != 0 {
            bytes_encode(2, &self.body, buf);
        }
        assert(buffer_contents(*buf) =~= buffer_contents(*old(buf)) + Self::encoding(self@));
    }

    fn merge_field<'a>(&mut self, tag: u32, wire: WireKind, buf: &'a [u8]) -> (r: Result<
        &'a [u8],
        DecodeError,
    >) {
        proof {
            lemma_value_decoding_len(wire, tag, buf@);
        }
        if tag == 1 {
            int32_merge(wire, &mut self.type_id, buf)
        } else if tag == 2 {
            bytes_merge(wire, &mut self.body, buf)
        } else {
            skip_unknown(wire, tag, buf)
        }
    }
}

/// Reading a length-delimited field with number `tag`, and any bytes after it: the key,
/// then the data. (A helper for the round-trip laws.)
proof fn lemma_length_delimited_field_read(tag: u32, data: Seq<u8>, rest: Seq<u8>)
    requires
        crate::wire::valid_tag(tag),
        data.len() <= u64::MAX,
    ensures
        ({
            let field = length_delimited_field(tag, data);
            let bytes = field + rest;
            let kl = key_encoding(tag, WireKind::LengthDelimited).len();
            &&& crate::wire::key_decoding(bytes) == Some((tag, WireKind::LengthDelimited, kl))
            &&& length_delimited_decoding(WireKind::LengthDelimited, bytes.skip(kl as int))
                == Some((data, (field.len() - kl) as nat))
            &&& 1 <= kl
            &&& bytes.skip(field.len() as int) == rest
        }),
{
    let key = key_encoding(tag, WireKind::LengthDelimited);
    let len = varint_encoding(data.len());
    let field = length_delimited_field(tag, data);
    let bytes = field + rest;
    lemma_key_roundtrip(tag, WireKind::LengthDelimited, len + data + rest);
    assert(bytes =~= key + (len + data + rest));
    crate::varint::lemma_varint_encoding_shape(crate::wire::key_value(tag, WireKind::LengthDelimited));
    lemma_length_delimited_roundtrip(data, rest);
    assert(bytes.skip(key.len() as int) =~= len + data + rest);
    assert(bytes.skip(field.len() as int) =~= rest);
}

/// Reading a `string` field with number `tag`, and any bytes after it: the key, then the
/// text. (A helper for the round-trip laws.)
proof fn lemma_string_field_read(tag: u32, s: Seq<char>, rest: Seq<u8>)
    requires
        crate::wire::valid_tag(tag),
        encode_utf8(s).len() <= u64::MAX,
    ensures
        ({
            let field = string_field(tag, s);
            let bytes = field + rest;
            let kl = key_encoding(tag, WireKind::LengthDelimited).len();
            &&& crate::wire::key_decoding(bytes) == Some((tag, WireKind::LengthDelimited, kl))
            &&& string_value_decoding(WireKind::LengthDelimited, bytes.skip(kl as int)) == Some(
                (s, (field.len() - kl) as nat),
            )
            &&& 1 <= kl
            &&& bytes.skip(field.len() as int) == rest
        }),
{
    lemma_length_delimited_field_read(tag, encode_utf8(s), rest);
    vstd::utf8::encode_utf8_valid_utf8(s);
    vstd::utf8::encode_utf8_decode_utf8(s);
}

/// Text is empty exactly when its UTF-8 bytes are.
pub proof fn lemma_utf8_empty(s: Seq<char>)
    ensures
        (s.len() == 0) == (encode_utf8(s).len() == 0),
{
}

/// Decoding the encoding of a frame gives the frame back.
pub proof fn lemma_raw_tcp_message_roundtrip(m: (i32, Seq<u8>))
    requires
        RawTcpMessage::encoding(m).len() <= max_buffer_len(),
    ensures
        decode_model::<RawTcpMessage>(RawTcpMessage::encoding(m)) == Some(m),
{
    let t = m.0;
    let b = m.1;
    let first = unless_default(t == 0, int32_field(1, t));
    let second = unless_default(b.len() == 0, length_delimited_field(2, b));
    let bytes = first + second;
    assert(bytes == RawTcpMessage::encoding(m));
    if b.len() != 0 {
        lemma_length_delimited_field_read(2, b, Seq::empty());
        assert(second + Seq::<u8>::empty() =~= second);
        assert(merge_model::<RawTcpMessage>((t, b), Seq::empty()) == Some((t, b)));
        assert(merge_model::<RawTcpMessage>((t, Seq::empty()), second) == Some((t, b)));
    } else {
        assert(second =~= Seq::<u8>::empty());
        assert(b =~= Seq::<u8>::empty());
        assert(merge_model::<RawTcpMessage>((t, Seq::empty()), second) == Some((t, b)));
    }
    if t != 0 {
        let key = key_encoding(1, WireKind::Varint);
        let val = varint_encoding((t as u64) as nat);
        lemma_key_roundtrip(1, WireKind::Varint, val + second);
        assert(bytes =~= key + (val + second));
        crate::varint::lemma_varint_encoding_shape(crate::wire::key_value(1, WireKind::Varint));
        assert(bytes.skip(key.len() as int) =~= val + second);
        lemma_int32_value_roundtrip(t, second);
        assert(bytes.skip((key.len() + val.len()) as int) =~= second);
        assert(merge_model::<RawTcpMessage>((0, Seq::empty()), bytes) == merge_model::<
            RawTcpMessage,
        >((t, Seq::empty()), second));
    } else {
        assert(bytes =~= second);
    }
}

impl View for Login {
    type V = Seq<char>;

    open spec fn view(&self) -> Seq<char> {
        self.id@
    }
}

impl ProtoMessage for Login {
    open spec fn empty_model() -> Seq<char> {
        Seq::empty()
    }

    open spec fn encoding(m: Seq<char>) -> Seq<u8> {
        unless_default(m.len() == 0, string_field(1, m))
    }

    open spec fn merge_field_model(m: Seq<char>, tag: u32, wire: WireKind, bytes: Seq<u8>) -> Option<
        (Seq<char>, nat),
    > {
        if tag == 1 {
            string_value_decoding(wire, bytes)
        } else {
            match skip_model(wire, tag, bytes) {
                Some(n) => Some((m, n)),
                None => None,
            }
        }
    }

    fn empty() -> (r: Self) {
        Login { id: String::new() }
    }

    fn encoded_len(&self) -> (n: usize) {
        proof {
            lemma_utf8_empty(self@);
        }
        if !self.id.as_str().is_empty() {
            string_encoded_len(1, &self.id)
        } else {
            0
        }
    }

    fn encode_raw(&self, buf: &mut BytesMut) {
        proof {
            lemma_utf8_empty(self@);
        }
        if !self.id.as_str().is_empty() {
            string_encode(1, &self.id, buf);
        }
        assert(buffer_contents(*buf) =~= buffer_contents(*old(buf)) + Self::encoding(self@));
    }

    fn merge_field<'a>(&mut self, tag: u32, wire: WireKind, buf: &'a [u8]) -> (r: Result<
        &'a [u8],
        DecodeError,
    >) {
        proof {
            lemma_value_decoding_len(wire, tag, buf@);
        }
        if tag == 1 {
            string_merge(wire, &mut self.id, buf)
        } else {
            skip_unknown(wire, tag, buf)
        }
    }
}

impl View for EchoRequest {
    type V = Seq<char>;

    open spec fn view(&self) -> Seq<char> {
        self.body@
    }
}

impl ProtoMessage for EchoRequest {
    open spec fn empty_model() -> Seq<char> {
        Seq::empty()
    }

    open spec fn encoding(m: Seq<char>) -> Seq<u8> {
        unless_default(m.len() == 0, string_field(1, m))
    }

    open spec fn merge_field_model(m: Seq<char>, tag: u32, wire: WireKind, bytes: Seq<u8>) -> Option<
        (Seq<char>, nat),
    > {
        if tag == 1 {
            string_value_decoding(wire, bytes)
        } else {
            match skip_model(wire, tag, bytes) {
                Some(n) => Some((m, n)),
                None => None,
            }
        }
    }

    fn empty() -> (r: Self) {
        EchoRequest { body: String::new() }
    }

    fn encoded_len(&self) -> (n: usize) {
        proof {
            lemma_utf8_empty(self@);
        }
        if !self.body.as_str().is_empty() {
            string_encoded_len(1, &self.body)
        } else {
            0
        }
    }

    fn encode_raw(&self, buf: &mut BytesMut) {
        proof {
            lemma_utf8_empty(self@);
        }
        if !self.body.as_str().is_empty() {
            string_encode(1, &self.body, buf);
        }
        assert(buffer_contents(*buf) =~= buffer_contents(*old(buf)) + Self::encoding(self@));
    }

    fn merge_field<'a>(&mut self, tag: u32, wire: WireKind, buf: &'a [u8]) -> (r: Result<
        &'a [u8],
        DecodeError,
    >) {
        proof {
            lemma_value_decoding_len(wire, tag, buf@);
        }
        if tag == 1 {
            string_merge(wire, &mut self.body, buf)
        } else {
            skip_unknown(wire, tag, buf)
        }
    }
}

impl View for MsgSendRequest {
    type V = (Seq<char>, Seq<char>);

    open spec fn view(&self) -> (Seq<char>, Seq<char>) {
        (self.to_id@, self.body@)
    }
}

impl ProtoMessage for MsgSendRequest {
    open spec fn empty_model() -> (Seq<char>, Seq<char>) {
        (Seq::empty(), Seq::empty())
    }

    open spec fn encoding(m: (Seq<char>, Seq<char>)) -> Seq<u8> {
        unless_default(m.0.len() == 0, string_field(1, m.0)) + unless_default(
            m.1.len() == 0,
            string_field(2, m.1),
        )
    }

    open spec fn merge_field_model(
        m: (Seq<char>, Seq<char>),
        tag: u32,
        wire: WireKind,
        bytes: Seq<u8>,
    ) -> Option<((Seq<char>, Seq<char>), nat)> {
        if tag == 1 {
            match string_value_decoding(wire, bytes) {
                Some((v, n)) => Some(((v, m.1), n)),
                None => None,
            }
        } else if tag == 2 {
            match string_value_decoding(wire, bytes) {
                Some((v, n)) => Some(((m.0, v), n)),
                None => None,
            }
        } else {
            match skip_model(wire, tag, bytes) {
                Some(n) => Some((m, n)),
                None => None,
            }
        }
    }

    fn empty() -> (r: Self) {
        MsgSendRequest { to_id: String::new(), body: String::new() }
    }

    fn encoded_len(&self) -> (n: usize) {
        proof {
            lemma_utf8_empty(self.to_id@);
            lemma_utf8_empty(self.body@);
        }
        let a: usize = if !self.to_id.as_str().is_empty() {
            string_encoded_len(1, &self.to_id)
        } else {
            0
        };
        let b: usize = if !self.body.as_str().is_empty() {
            string_encoded_len(2, &self.body)
        } else {
            0
        };
        a + b
    }

    fn encode_raw(&self, buf: &mut BytesMut) {
        proof {
            lemma_utf8_empty(self.to_id@);
            lemma_utf8_empty(self.body@);
        }
        if !self.to_id.as_str().is_empty() {
            string_encode(1, &self.to_id, buf);
        }
        if !self.body.as_str().is_empty() {
            string_encode(2, &self.body, buf);
        }
        assert(buffer_contents(*buf) =~= buffer_contents(*old(buf)) + Self::encoding(self@));
    }

    fn merge_field<'a>(&mut self, tag: u32, wire: WireKind, buf: &'a [u8]) -> (r: Result<
        &'a [u8],
        DecodeError,
    >) {
        proof {
            lemma_value_decoding_len(wire, tag, buf@);
        }
        if tag == 1 {
            string_merge(wire, &mut self.to_id, buf)
        } else if tag == 2 {
            string_merge(wire, &mut self.body, buf)
        } else {
            skip_unknown(wire, tag, buf)
        }
    }
}

/// Decoding the encoding of a `Login` gives it back.
pub proof fn lemma_login_roundtrip(m: Seq<char>)
    requires
        Login::encoding(m).len() <= max_buffer_len(),
    ensures
        decode_model::<Login>(Login::encoding(m)) == Some(m),
{
    let bytes = Login::encoding(m);
    if m.len() == 0 {
        assert(m =~= Seq::<char>::empty());
    } else {
        lemma_string_field_read(1, m, Seq::empty());
        assert(bytes + Seq::<u8>::empty() =~= bytes);
        assert(merge_model::<Login>(m, Seq::empty()) == Some(m));
    }
}

/// Decoding the encoding of a `EchoRequest` gives it back.
pub proof fn lemma_echo_request_roundtrip(m: Seq<char>)
    requires
        EchoRequest::encoding(m).len() <= max_buffer_len(),
    ensures
        decode_model::<EchoRequest>(EchoRequest::encoding(m)) == Some(m),
{
    let bytes = EchoRequest::encoding(m);
    if m.len() == 0 {
        assert(m =~= Seq::<char>::empty());
    } else {
        lemma_string_field_read(1, m, Seq::empty());
        assert(bytes + Seq::<u8>::empty() =~= bytes);
        assert(merge_model::<EchoRequest>(m, Seq::empty()) == Some(m));
    }
}

/// Decoding the encoding of a `MsgSendRequest` gives it back.
pub proof fn lemma_msg_send_request_roundtrip(m: (Seq<char>, Seq<char>))
    requires
        MsgSendRequest::encoding(m).len() <= max_buffer_len(),
    ensures
        decode_model::<MsgSendRequest>(MsgSendRequest::encoding(m)) == Some(m),
{
    let to = m.0;
    let body = m.1;
    let first = unless_default(to.len() == 0, string_field(1, to));
    let second = unless_default(body.len() == 0, string_field(2, body));
    let bytes = first + second;
    if body.len() != 0 {
        lemma_string_field_read(2, body, Seq::empty());
        assert(second + Seq::<u8>::empty() =~= second);
        assert(merge_model::<MsgSendRequest>((to, body), Seq::empty()) == Some((to, body)));
        assert(merge_model::<MsgSendRequest>((to, Seq::empty()), second) == Some((to, body)));
    } else {
        assert(second =~= Seq::<u8>::empty());
        assert(body =~= Seq::<char>::empty());
        assert(merge_model::<MsgSendRequest>((to, Seq::empty()), second) == Some((to, body)));
    }
    if to.len() != 0 {
        lemma_string_field_read(1, to, second);
        assert(merge_model::<MsgSendRequest>((Seq::empty(), Seq::empty()), bytes)
            == merge_model::<MsgSendRequest>((to, Seq::empty()), second));
    } else {
        assert(to =~= Seq::<char>::empty());
        assert(bytes =~= second);
    }
}

/// The message types that a frame can carry.
#[derive(Clone, Copy, Debug, PartialEq, Eq, Structural)]
pub enum TypeID {
    Login,
    EchoRequest,
    SendRequest,
}

/// The number that stands for each message type in a frame: 1, 2 and 3.
pub open spec fn type_code(t: TypeID) -> i32 {
    match t {
        TypeID::Login => 1,
        TypeID::EchoRequest => 2,
        TypeID::SendRequest => 3,
    }
}

impl TypeID {
    /// The number that stands for this message type in a frame.
    pub fn code(self) -> (r: i32)
        ensures
            r == type_code(self),
    {
        match self {
            TypeID::Login => 1,
            TypeID::EchoRequest => 2,
            TypeID::SendRequest => 3,
        }
    }
}

/// The frame for `msg` with type `type_id`: the encoding of the message is its body.
pub open spec fn frame_of<M: ProtoMessage>(type_id: i32, m: M::V) -> (i32, Seq<u8>) {
    (type_id, M::encoding(m))
}

/// Wraps a message in a frame of the given type.
fn to_raw<M: ProtoMessage>(type_id: i32, msg: M) -> (r: RawTcpMessage)
    requires
        M::encoding(msg@).len() <= max_buffer_len(),
    ensures
        r@ == frame_of::<M>(type_id, msg@),
{
    let mut buffer = buffer_with_capacity(msg.encoded_len());
    let res = encode(&msg, &mut buffer);
    assert(res is Ok);
    let body = slice_to_vec(buffer_bytes(&buffer));
    RawTcpMessage { type_id, body }
}

/// The frame announcing user `id`.
pub fn create_login(id: String) -> (r: RawTcpMessage)
    requires
        Login::encoding(id@).len() <= max_buffer_len(),
    ensures
        r@ == frame_of::<Login>(type_code(TypeID::Login), id@),
{
    to_raw(TypeID::Login.code(), Login { id })
}

/// The frame asking the server to send `body` back.
pub fn create_echo(body: String) -> (r: RawTcpMessage)
    requires
        EchoRequest::encoding(body@).len() <= max_buffer_len(),
    ensures
        r@ == frame_of::<EchoRequest>(type_code(TypeID::EchoRequest), body@),
{
    to_raw(TypeID::EchoRequest.code(), EchoRequest { body })
}

/// The frame sending `body` to user `to_id`.
pub fn create_send(to_id: String, body: String) -> (r: RawTcpMessage)
    requires
        MsgSendRequest::encoding((to_id@, body@)).len() <= max_buffer_len(),
    ensures
        r@ == frame_of::<MsgSendRequest>(type_code(TypeID::SendRequest), (to_id@, body@)),
{
    to_raw(TypeID::SendRequest.code(), MsgSendRequest { to_id, body })
}

/// Decodes a message of type `M` from the body of a frame.
pub fn parse_raw_msg<M: ProtoMessage>(bytes: &[u8]) -> (r: Result<M, DecodeFailure>)
    ensures
        match decode_model::<M>(bytes@) {
            Some(m) => r matches Ok(msg) && msg@ == m,
            None => r matches Err(DecodeFailure::Protobuf(_)),
        },
{
    match decode::<M>(bytes) {
        Ok(msg) => Ok(msg),
        Err(e) => Err(DecodeFailure::Protobuf(e)),
    }
}

impl ProtoRoundTrip for RawTcpMessage {
    proof fn lemma_encoding_roundtrip(m: Self::V) {
        lemma_raw_tcp_message_roundtrip(m);
    }
}

impl ProtoRoundTrip for Login {
    proof fn lemma_encoding_roundtrip(m: Self::V) {
        lemma_login_roundtrip(m);
    }
}

impl ProtoRoundTrip for EchoRequest {
    proof fn lemma_encoding_roundtrip(m: Self::V) {
        lemma_echo_request_roundtrip(m);
    }
}

impl ProtoRoundTrip for MsgSendRequest {
    proof fn lemma_encoding_roundtrip(m: Self::V) {
        lemma_msg_send_request_roundtrip(m);
    }
}

/// The body of a frame built from a message decodes as that message: `parse_raw_msg` on
/// the body of a frame from `create_login`, `create_echo` or `create_send` gives back the
/// message it was made from.
pub proof fn lemma_frame_body_roundtrip<M: ProtoRoundTrip>(type_id: i32, m: M::V)
    requires
        M::encoding(m).len() <= max_buffer_len(),
    ensures
        decode_model::<M>(frame_of::<M>(type_id, m).1) == Some(m),
{
    M::lemma_encoding_roundtrip(m);
}

} // verus!
