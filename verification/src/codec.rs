//! Splitting a byte stream into frames, and writing frames into it.
//!
//! A frame is preceded by its length as a protobuf varint:
//!
//! ```text
//! BEFORE DECODE (302 bytes)       AFTER DECODE (300 bytes)
//! +--------+---------------+      +---------------+
//! | Length | Protobuf Data |----->| Protobuf Data |
//! | 0xAC02 |  (300 bytes)  |      |  (300 bytes)  |
//! +--------+---------------+      +---------------+
//! ```
use crate::buffer::{
    buffer_bytes, buffer_contents, buffer_len, buffer_put, buffer_remaining_mut, buffer_reserve,
    buffer_split_to, max_buffer_len,
};
use crate::message::{decode, decode_model, encode_length_delimited, length_delimited_encoding, ProtoMessage};
use crate::types::{lemma_raw_tcp_message_roundtrip, DecodeFailure, RawTcpMessage};
use crate::varint::{decode_varint, lemma_varint_decoding_len, lemma_varint_roundtrip, varint_decoding, varint_encoding};
use bytes::BytesMut;
use vstd::prelude::*;
use vstd::slice::slice_to_vec;

verus! {

/// What the front of a buffer holds, as far as framing goes.
pub enum FrameSplit {
    /// Not yet a whole length prefix, or not yet the whole frame it announces.
    NeedMore,
    /// Ten or more bytes that do not start with a valid varint.
    BadLength,
    /// A length prefix that does not fit in `usize`.
    TooLarge,
    /// A whole frame: `header` bytes of length prefix, then `len` bytes of message.
    Frame { header: nat, len: nat },
}

/// How the bytes at the front of a buffer split into a frame.
pub open spec fn frame_split(bytes: Seq<u8>) -> FrameSplit {
    match varint_decoding(bytes) {
        None => if bytes.len() < 10 {
            FrameSplit::NeedMore
        } else {
            FrameSplit::BadLength
        },
        Some((len, n)) => if len > usize::MAX {
            FrameSplit::TooLarge
        } else if bytes.len() - n < len {
            FrameSplit::NeedMore
        } else {
            FrameSplit::Frame { header: n, len: len as nat }
        },
    }
}

/// The codec of frames: each frame is a `RawTcpMessage` preceded by its length.
#[derive(Debug, Clone, Copy)]
pub struct ProtobufFrameCodec;

impl ProtobufFrameCodec {
    /// A codec; it holds no state.
    pub fn new() -> (r: Self) {
        Self {}
    }

    /// Appends `item`, preceded by the length of its encoding as a varint.
    pub fn encode(&mut self, item: RawTcpMessage, buf: &mut BytesMut)
        requires
            RawTcpMessage::encoding(item@).len() <= max_buffer_len(),
            buffer_contents(*old(buf)).len() + length_delimited_encoding::<RawTcpMessage>(item@).len()
                <= max_buffer_len(),
        ensures
            buffer_contents(*final(buf)) == buffer_contents(*old(buf))
                + length_delimited_encoding::<RawTcpMessage>(item@),
    {
        let len = item.encoded_len();
        if buffer_remaining_mut(buf) < len {
            buffer_reserve(buf, len);
        }
        let res = encode_length_delimited(&item, buf);
        assert(res is Ok);
    }

    /// Takes the first frame off the front of `buf`. Where the buffer does not yet hold a
    /// whole frame it gives `None` and leaves the buffer as it is; where the length prefix is
    /// corrupt or too large it fails and takes everything the buffer holds; otherwise the frame's bytes leave the
    /// buffer and the message they hold is decoded.
    pub fn decode(&mut self, buf: &mut BytesMut) -> (r: Result<Option<RawTcpMessage>, DecodeFailure>)
        ensures
            match frame_split(buffer_contents(*old(buf))) {
                FrameSplit::NeedMore => r matches Ok(None) && buffer_contents(*final(buf))
                    == buffer_contents(*old(buf)),
                FrameSplit::BadLength => r matches Err(DecodeFailure::Protobuf(_))
                    && buffer_contents(*final(buf)) == Seq::<u8>::empty(),
                FrameSplit::TooLarge => r matches Err(DecodeFailure::LengthDelimiterTooLarge)
                    && buffer_contents(*final(buf)) == Seq::<u8>::empty(),
                FrameSplit::Frame { header, len } => buffer_contents(*final(buf))
                    == buffer_contents(*old(buf)).skip((header + len) as int) && match decode_model::<
                    RawTcpMessage,
                >(buffer_contents(*old(buf)).subrange(header as int, (header + len) as int)) {
                    Some(m) => r matches Ok(Some(msg)) && msg@ == m,
                    None => r matches Err(DecodeFailure::Protobuf(_)),
                },
            },
    {
        let ghost before = buffer_contents(*buf);
        let data = buffer_bytes(buf);
        let total = data.len();
        proof {
            lemma_varint_decoding_len(data@);
        }
        let (len, after) = match decode_varint(data) {
            Ok(x) => x,
            Err(e) => {
                if total < 10 {
                    return Ok(None);
                } else {
                    let _ = buffer_split_to(buf, total);
                    assert(buffer_contents(*buf) =~= Seq::<u8>::empty());
                    return Err(DecodeFailure::Protobuf(e));
                }
            },
        };
        if len > usize::MAX as u64 {
            let _ = buffer_split_to(buf, total);
            assert(buffer_contents(*buf) =~= Seq::<u8>::empty());
            return Err(DecodeFailure::LengthDelimiterTooLarge);
        }
        let len = len as usize;
        if after.len() < len {
            return Ok(None);
        }
        let header = data.len() - after.len();
        let frame = &after[0..len];
        assert(frame@ =~= before.subrange(header as int, (header + len) as int));
        let result = decode::<RawTcpMessage>(frame);
        let _ = buffer_split_to(buf, header + len);
        match result {
            Ok(msg) => Ok(Some(msg)),
            Err(e) => Err(DecodeFailure::Protobuf(e)),
        }
    }
}

/// A frame that `encode` appended is what `decode` reads back, with the bytes after it
/// left in the buffer.
pub proof fn lemma_frame_roundtrip(m: (i32, Seq<u8>), rest: Seq<u8>)
    requires
        RawTcpMessage::encoding(m).len() <= max_buffer_len(),
    ensures
        ({
            let e = RawTcpMessage::encoding(m);
            let bytes = length_delimited_encoding::<RawTcpMessage>(m) + rest;
            let header = varint_encoding(e.len()).len();
            &&& frame_split(bytes) == FrameSplit::Frame { header, len: e.len() }
            &&& decode_model::<RawTcpMessage>(bytes.subrange(header as int, (header + e.len()) as int))
                == Some(m)
            &&& bytes.skip((header + e.len()) as int) == rest
        }),
{
    let e = RawTcpMessage::encoding(m);
    let p = varint_encoding(e.len());
    let bytes = length_delimited_encoding::<RawTcpMessage>(m) + rest;
    lemma_varint_roundtrip(e.len() as u64, e + rest);
    assert(bytes =~= p + (e + rest));
    assert(bytes.subrange(p.len() as int, (p.len() + e.len()) as int) =~= e);
    assert(bytes.skip((p.len() + e.len()) as int) =~= rest);
    lemma_raw_tcp_message_roundtrip(m);
}

/// The codec that passes bytes through as they come: whatever the buffer holds is one
/// chunk.
pub struct Bytes;

impl Bytes {
    /// Takes everything the buffer holds, or gives `None` where it holds nothing.
    pub fn decode(&mut self, buf: &mut BytesMut) -> (r: Option<Vec<u8>>)
        ensures
            buffer_contents(*old(buf)).len() == 0 ==> r is None && buffer_contents(*final(buf))
                == buffer_contents(*old(buf)),
            buffer_contents(*old(buf)).len() > 0 ==> (r matches Some(v) && v@ == buffer_contents(
                *old(buf),
            )) && buffer_contents(*final(buf)) == Seq::<u8>::empty(),
    {
        if buffer_len(buf) > 0 {
            let len = buffer_len(buf);
            let chunk = buffer_split_to(buf, len);
            assert(buffer_contents(*buf) =~= Seq::<u8>::empty());
            Some(slice_to_vec(buffer_bytes(&chunk)))
        } else {
            None
        }
    }

    /// Appends `data`.
    pub fn encode(&mut self, data: Vec<u8>, buf: &mut BytesMut)
        requires
            buffer_contents(*old(buf)).len() + data@.len() <= max_buffer_len(),
        ensures
            buffer_contents(*final(buf)) == buffer_contents(*old(buf)) + data@,
    {
        buffer_put(buf, data.as_slice());
    }
}

} // verus!
