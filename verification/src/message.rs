//! What every protobuf message of the protocol offers, and decoding a message from its
//! fields.
use crate::buffer::{buffer_contents, buffer_remaining_mut, max_buffer_len};
use crate::varint::{encode_varint, encoded_len_varint, varint_encoding};
use crate::wire::{decode_key, key_decoding, lemma_key_decoding_len, WireKind};
use bytes::BytesMut;
use prost::DecodeError;
use vstd::prelude::*;

verus! {

/// A protobuf message: its model is its view, the bytes it encodes to are a function of
/// the model, and decoding goes field by field.
pub trait ProtoMessage: Sized + View {
    /// The model of a message with every field at its default.
    spec fn empty_model() -> Self::V;

    /// The bytes that a message with model `m` encodes to.
    spec fn encoding(m: Self::V) -> Seq<u8>;

    /// What reading the value of field `tag` with wire type `wire` from the front of `bytes`
    /// does to a message with model `m`: the new model and the number of bytes read.
    spec fn merge_field_model(m: Self::V, tag: u32, wire: WireKind, bytes: Seq<u8>) -> Option<
        (Self::V, nat),
    >;

    /// A message with every field at its default.
    fn empty() -> (r: Self)
        ensures
            r@ == Self::empty_model(),
    ;

    /// The number of bytes that `encode_raw` appends.
    fn encoded_len(&self) -> (n: usize)
        requires
            Self::encoding(self@).len() <= max_buffer_len(),
        ensures
            n == Self::encoding(self@).len(),
    ;

    /// Appends the encoding of the message.
    fn encode_raw(&self, buf: &mut BytesMut)
        requires
            buffer_contents(*old(buf)).len() + Self::encoding(self@).len() <= max_buffer_len(),
        ensures
            buffer_contents(*final(buf)) == buffer_contents(*old(buf)) + Self::encoding(self@),
    ;

    /// Reads the value of field `tag` with wire type `wire` from the front of `buf` into the
    /// message and gives the bytes after it.
    fn merge_field<'a>(&mut self, tag: u32, wire: WireKind, buf: &'a [u8]) -> (r: Result<
        &'a [u8],
        DecodeError,
    >)
        ensures
            match Self::merge_field_model(old(self)@, tag, wire, buf@) {
                Some((m, n)) => n <= buf@.len() && (r matches Ok(rest) && rest@ == buf@.skip(
                    n as int,
                )) && final(self)@ == m,
                None => r is Err,
            },
    ;
}

/// What reading fields from `bytes` until they are used up does to a message with model
/// `m`: one key, then the value of that field, and so on; `None` where a step fails.
pub open spec fn merge_model<M: ProtoMessage>(m: M::V, bytes: Seq<u8>) -> Option<M::V>
    decreases bytes.len(),
{
    if bytes.len() == 0 {
        Some(m)
    } else {
        match key_decoding(bytes) {
            None => None,
            Some((tag, wire, n)) => match M::merge_field_model(
                m,
                tag,
                wire,
                bytes.skip(n as int),
            ) {
                None => None,
                Some((m2, k)) => if 1 <= n && n + k <= bytes.len() {
                    merge_model::<M>(m2, bytes.skip((n + k) as int))
                } else {
                    None
                },
            },
        }
    }
}

/// The message that `bytes` decode to, starting from the defaults.
pub open spec fn decode_model<M: ProtoMessage>(bytes: Seq<u8>) -> Option<M::V> {
    merge_model::<M>(M::empty_model(), bytes)
}

/// A message whose decoding gives back what its encoding was made from.
pub trait ProtoRoundTrip: ProtoMessage {
    /// Decoding the encoding of a message gives the message back.
    proof fn lemma_encoding_roundtrip(m: Self::V)
        requires
            Self::encoding(m).len() <= max_buffer_len(),
        ensures
            decode_model::<Self>(Self::encoding(m)) == Some(m),
    ;
}

/// Reads fields from `buf` into `msg` until `buf` is used up (what `prost::Message::merge`
/// does for a message).
pub fn merge<M: ProtoMessage>(msg: &mut M, buf: &[u8]) -> (r: Result<(), DecodeError>)
    ensures
        match merge_model::<M>(old(msg)@, buf@) {
            Some(m) => r is Ok && final(msg)@ == m,
            None => r is Err,
        },
{
    let mut rest = buf;
    while rest.len() > 0
        invariant
            merge_model::<M>(msg@, rest@) == merge_model::<M>(old(msg)@, buf@),
        decreases rest@.len(),
    {
        let ghost before = rest@;
        let ghost model = msg@;
        let (tag, wire, after_key) = match decode_key(rest) {
            Ok(x) => x,
            Err(e) => {
                return Err(e);
            },
        };
        proof {
            lemma_key_decoding_len(before);
        }
        let after = match msg.merge_field(tag, wire, after_key) {
            Ok(a) => a,
            Err(e) => {
                return Err(e);
            },
        };
        proof {
            let n = before.len() - after_key@.len();
            let k = after_key@.len() - after@.len();
            assert(after@ =~= before.skip(n + k));
        }
        rest = after;
    }
    Ok(())
}

/// Decodes a message from `buf`, starting from the defaults (what `prost::Message::decode`
/// does).
pub fn decode<M: ProtoMessage>(buf: &[u8]) -> (r: Result<M, DecodeError>)
    ensures
        match decode_model::<M>(buf@) {
            Some(m) => r matches Ok(msg) && msg@ == m,
            None => r is Err,
        },
{
    let mut msg = M::empty();
    match merge(&mut msg, buf) {
        Ok(()) => Ok(msg),
        Err(e) => Err(e),
    }
}

/// Encoding did not happen: the buffer cannot grow by the `required` bytes, only by
/// `remaining`.
#[derive(Debug)]
pub struct InsufficientCapacity {
    pub required: usize,
    pub remaining: usize,
}

/// The encoding of a message preceded by its length as a varint.
pub open spec fn length_delimited_encoding<M: ProtoMessage>(m: M::V) -> Seq<u8> {
    varint_encoding(M::encoding(m).len()) + M::encoding(m)
}

/// Appends the encoding of `msg` where the buffer can grow by that much, and fails leaving
/// it as it was where it cannot (what `prost::Message::encode` does).
pub fn encode<M: ProtoMessage>(msg: &M, buf: &mut BytesMut) -> (r: Result<(), InsufficientCapacity>)
    requires
        M::encoding(msg@).len() <= max_buffer_len(),
        buffer_contents(*old(buf)).len() <= max_buffer_len(),
    ensures
        r is Ok <==> buffer_contents(*old(buf)).len() + M::encoding(msg@).len()
            <= max_buffer_len(),
        r is Ok ==> buffer_contents(*final(buf)) == buffer_contents(*old(buf)) + M::encoding(
            msg@,
        ),
        r is Err ==> buffer_contents(*final(buf)) == buffer_contents(*old(buf)),
{
    let required = msg.encoded_len();
    let remaining = buffer_remaining_mut(buf);
    if required > remaining {
        return Err(InsufficientCapacity { required, remaining });
    }
    msg.encode_raw(buf);
    Ok(())
}

/// Appends the length of the encoding of `msg` as a varint, then the encoding, where the
/// buffer can grow by that much, and fails leaving it as it was where it cannot (what
/// `prost::Message::encode_length_delimited` does).
pub fn encode_length_delimited<M: ProtoMessage>(msg: &M, buf: &mut BytesMut) -> (r: Result<
    (),
    InsufficientCapacity,
>)
    requires
        M::encoding(msg@).len() <= max_buffer_len(),
        buffer_contents(*old(buf)).len() <= max_buffer_len(),
    ensures
        r is Ok <==> buffer_contents(*old(buf)).len() + length_delimited_encoding::<M>(msg@).len()
            <= max_buffer_len(),
        r is Ok ==> buffer_contents(*final(buf)) == buffer_contents(*old(buf))
            + length_delimited_encoding::<M>(msg@),
        r is Err ==> buffer_contents(*final(buf)) == buffer_contents(*old(buf)),
{
    let len = msg.encoded_len();
    proof {
        crate::varint::lemma_varint_encoding_u64(len as u64);
    }
    let required = len + encoded_len_varint(len as u64);
    let remaining = buffer_remaining_mut(buf);
    if required > remaining {
        return Err(InsufficientCapacity { required, remaining });
    }
    encode_varint(len as u64, buf);
    msg.encode_raw(buf);
    assert(buffer_contents(*buf) =~= buffer_contents(*old(buf)) + length_delimited_encoding::<M>(
        msg@,
    ));
    Ok(())
}

} // verus!
