//! Protobuf fields on the wire: keys, and the encoders and decoders of the field kinds
//! that the messages of this protocol use.
use crate::buffer::{buffer_contents, max_buffer_len};
use crate::varint::{lemma_varint_decoding_len, lemma_varint_roundtrip, varint_decoding, varint_encoding};
use bytes::BytesMut;
use prost::encoding::WireType;
use prost::DecodeError;
use vstd::prelude::*;
use vstd::utf8::{decode_utf8, encode_utf8, valid_utf8};

verus! {

/// The six wire types of protobuf, in the order of their codes 0 to 5.
#[derive(Clone, Copy, Debug, PartialEq, Eq, Structural)]
pub enum WireKind {
    Varint,
    SixtyFourBit,
    LengthDelimited,
    StartGroup,
    EndGroup,
    ThirtyTwoBit,
}

/// The code of a wire type, as it stands in the low three bits of a key.
pub open spec fn wire_code(k: WireKind) -> nat {
    match k {
        WireKind::Varint => 0,
        WireKind::SixtyFourBit => 1,
        WireKind::LengthDelimited => 2,
        WireKind::StartGroup => 3,
        WireKind::EndGroup => 4,
        WireKind::ThirtyTwoBit => 5,
    }
}

/// The wire type with a given code, if there is one.
pub open spec fn wire_kind_of(code: nat) -> Option<WireKind> {
    if code == 0 {
        Some(WireKind::Varint)
    } else if code == 1 {
        Some(WireKind::SixtyFourBit)
    } else if code == 2 {
        Some(WireKind::LengthDelimited)
    } else if code == 3 {
        Some(WireKind::StartGroup)
    } else if code == 4 {
        Some(WireKind::EndGroup)
    } else if code == 5 {
        Some(WireKind::ThirtyTwoBit)
    } else {
        None
    }
}

/// The largest field number protobuf allows.
pub open spec fn max_tag() -> nat {
    0x1fff_ffff
}

/// A field number that protobuf allows.
pub open spec fn valid_tag(tag: u32) -> bool {
    1 <= tag <= max_tag()
}

/// The key of a field: its number shifted left by three, with the wire type below.
pub open spec fn key_value(tag: u32, k: WireKind) -> nat {
    tag as nat * 8 + wire_code(k)
}

/// The bytes of a key.
pub open spec fn key_encoding(tag: u32, k: WireKind) -> Seq<u8> {
    varint_encoding(key_value(tag, k))
}

/// What reading a key at the front of `bytes` gives: field number, wire type and the number
/// of bytes read. A key above `u32::MAX`, an unknown wire type or field number 0 give `None`.
pub open spec fn key_decoding(bytes: Seq<u8>) -> Option<(u32, WireKind, nat)> {
    match varint_decoding(bytes) {
        None => None,
        Some((key, n)) => if key > u32::MAX {
            None
        } else {
            match wire_kind_of((key % 8) as nat) {
                None => None,
                Some(k) => if key / 8 < 1 {
                    None
                } else {
                    Some(((key / 8) as u32, k, n))
                },
            }
        },
    }
}

/// A field of wire type varint holding `v`.
pub open spec fn varint_field(tag: u32, v: u64) -> Seq<u8> {
    key_encoding(tag, WireKind::Varint) + varint_encoding(v as nat)
}

/// An `int32` field: negative values are sign-extended to 64 bits first.
pub open spec fn int32_field(tag: u32, v: i32) -> Seq<u8> {
    varint_field(tag, v as u64)
}

/// A length-delimited field holding `data`.
pub open spec fn length_delimited_field(tag: u32, data: Seq<u8>) -> Seq<u8> {
    key_encoding(tag, WireKind::LengthDelimited) + varint_encoding(data.len()) + data
}

/// A `string` field: the UTF-8 bytes of the text, length-delimited.
pub open spec fn string_field(tag: u32, s: Seq<char>) -> Seq<u8> {
    length_delimited_field(tag, encode_utf8(s))
}

/// Reading the value of an `int32` field: it must have wire type varint; the varint is
/// truncated to 32 bits. Gives the value and the number of bytes read.
pub open spec fn int32_value_decoding(wire: WireKind, bytes: Seq<u8>) -> Option<(i32, nat)> {
    if wire != WireKind::Varint {
        None
    } else {
        match varint_decoding(bytes) {
            Some((v, n)) => Some((v as i32, n)),
            None => None,
        }
    }
}

/// Reading the value of a length-delimited field: its data and the number of bytes read.
pub open spec fn length_delimited_decoding(wire: WireKind, bytes: Seq<u8>) -> Option<
    (Seq<u8>, nat),
> {
    if wire != WireKind::LengthDelimited {
        None
    } else {
        match varint_decoding(bytes) {
            None => None,
            Some((len, n)) => if len > bytes.len() - n {
                None
            } else {
                Some((bytes.subrange(n as int, n + len), (n + len) as nat))
            },
        }
    }
}

/// Reading the value of a `string` field: its data must be valid UTF-8.
pub open spec fn string_value_decoding(wire: WireKind, bytes: Seq<u8>) -> Option<
    (Seq<char>, nat),
> {
    match length_delimited_decoding(wire, bytes) {
        None => None,
        Some((data, n)) => if valid_utf8(data) {
            Some((decode_utf8(data), n))
        } else {
            None
        },
    }
}

/// How many bytes skipping the value of an unknown field takes, for every wire type but
/// start-group (see `skipped_group_len`).
pub open spec fn skipped_value_len(wire: WireKind, bytes: Seq<u8>) -> Option<nat> {
    match wire {
        WireKind::Varint => match varint_decoding(bytes) {
            Some((_, n)) => Some(n),
            None => None,
        },
        WireKind::SixtyFourBit => if bytes.len() >= 8 {
            Some(8)
        } else {
            None
        },
        WireKind::ThirtyTwoBit => if bytes.len() >= 4 {
            Some(4)
        } else {
            None
        },
        WireKind::LengthDelimited => match varint_decoding(bytes) {
            None => None,
            Some((len, n)) => if len > bytes.len() - n {
                None
            } else {
                Some((n + len) as nat)
            },
        },
        _ => None,
    }
}

/// How many bytes `prost::encoding::skip_field` takes to skip a group with field number
/// `tag` from the front of `bytes` (nested groups, ended by an end-group key with the same
/// number), or `None` where it fails.
pub uninterp spec fn skipped_group_len(tag: u32, bytes: Seq<u8>) -> Option<nat>;

/// `prost::encoding::int32::encode`: appends the key (wire type varint) and the value,
/// sign-extended to 64 bits, as a varint.
#[verifier::external_body]
pub(crate) fn int32_encode(tag: u32, value: &i32, buf: &mut BytesMut)
    requires
        valid_tag(tag),
        buffer_contents(*old(buf)).len() + int32_field(tag, *value).len() <= max_buffer_len(),
    ensures
        buffer_contents(*final(buf)) == buffer_contents(*old(buf)) + int32_field(tag, *value),
{
    prost::encoding::int32::encode(tag, value, buf)
}

/// `prost::encoding::int32::encoded_len`: the length of what `int32::encode` appends.
#[verifier::external_body]
pub(crate) fn int32_encoded_len(tag: u32, value: &i32) -> (n: usize)
    requires
        valid_tag(tag),
    ensures
        n == int32_field(tag, *value).len(),
{
    prost::encoding::int32::encoded_len(tag, value)
}

/// `prost::encoding::bytes::encode` of a `Vec<u8>`: appends the key (wire type
/// length-delimited), the length as a varint and the bytes.
#[verifier::external_body]
pub(crate) fn bytes_encode(tag: u32, value: &Vec<u8>, buf: &mut BytesMut)
    requires
        valid_tag(tag),
        buffer_contents(*old(buf)).len() + length_delimited_field(tag, value@).len()
            <= max_buffer_len(),
    ensures
        buffer_contents(*final(buf)) == buffer_contents(*old(buf)) + length_delimited_field(
            tag,
            value@,
        ),
{
    prost::encoding::bytes::encode(tag, value, buf)
}

/// `prost::encoding::bytes::encoded_len` of a `Vec<u8>`: the length of what `bytes::encode`
/// appends.
#[verifier::external_body]
pub(crate) fn bytes_encoded_len(tag: u32, value: &Vec<u8>) -> (n: usize)
    requires
        valid_tag(tag),
        value@.len() + 15 <= usize::MAX,
    ensures
        n == length_delimited_field(tag, value@).len(),
{
    prost::encoding::bytes::encoded_len(tag, value)
}

/// `prost::encoding::string::encode`: appends the key (wire type length-delimited), the
/// length of the UTF-8 bytes as a varint and those bytes.
#[verifier::external_body]
pub(crate) fn string_encode(tag: u32, value: &String, buf: &mut BytesMut)
    requires
        valid_tag(tag),
        buffer_contents(*old(buf)).len() + string_field(tag, value@).len() <= max_buffer_len(),
    ensures
        buffer_contents(*final(buf)) == buffer_contents(*old(buf)) + string_field(tag, value@),
{
    prost::encoding::string::encode(tag, value, buf)
}

/// `prost::encoding::string::encoded_len`: the length of what `string::encode` appends.
#[verifier::external_body]
pub(crate) fn string_encoded_len(tag: u32, value: &String) -> (n: usize)
    requires
        valid_tag(tag),
        encode_utf8(value@).len() + 15 <= usize::MAX,
    ensures
        n == string_field(tag, value@).len(),
{
    prost::encoding::string::encoded_len(tag, value)
}

/// `prost::encoding::decode_key` on a byte slice: the field number, the wire type and the
/// bytes after the key.
#[verifier::external_body]
pub(crate) fn decode_key(buf: &[u8]) -> (r: Result<(u32, WireKind, &[u8]), DecodeError>)
    ensures
        match key_decoding(buf@) {
            Some((tag, k, n)) => r matches Ok((t, w, rest)) && t == tag && w == k && rest@
                == buf@.skip(n as int),
            None => r is Err,
        },
{
    let mut rest = buf;
    let (tag, wire) = prost::encoding::decode_key(&mut rest)?;
    let kind = match wire {
        WireType::Varint => WireKind::Varint,
        WireType::SixtyFourBit => WireKind::SixtyFourBit,
        WireType::LengthDelimited => WireKind::LengthDelimited,
        WireType::StartGroup => WireKind::StartGroup,
        WireType::EndGroup => WireKind::EndGroup,
        WireType::ThirtyTwoBit => WireKind::ThirtyTwoBit,
    };
    Ok((tag, kind, rest))
}

/// `prost::encoding::int32::merge` on a byte slice (with a fresh decode context): reads the
/// value of an `int32` field into `value` and gives the bytes after it; on failure `value`
/// keeps what it held.
#[verifier::external_body]
pub(crate) fn int32_merge<'a>(wire: WireKind, value: &mut i32, buf: &'a [u8]) -> (r: Result<
    &'a [u8],
    DecodeError,
>)
    ensures
        match int32_value_decoding(wire, buf@) {
            Some((v, n)) => r matches Ok(rest) && rest@ == buf@.skip(n as int) && *final(value)
                == v,
            None => r is Err && *final(value) == *old(value),
        },
{
    let mut rest = buf;
    let wire_type = match wire {
        WireKind::Varint => WireType::Varint,
        WireKind::SixtyFourBit => WireType::SixtyFourBit,
        WireKind::LengthDelimited => WireType::LengthDelimited,
        WireKind::StartGroup => WireType::StartGroup,
        WireKind::EndGroup => WireType::EndGroup,
        WireKind::ThirtyTwoBit => WireType::ThirtyTwoBit,
    };
    let ctx = prost::encoding::DecodeContext::default();
    prost::encoding::int32::merge(wire_type, value, &mut rest, ctx)?;
    Ok(rest)
}

/// `prost::encoding::bytes::merge` into a `Vec<u8>` on a byte slice (with a fresh decode
/// context): replaces `value` with the data of a length-delimited field and gives the bytes
/// after it; on failure `value` keeps what it held.
#[verifier::external_body]
pub(crate) fn bytes_merge<'a>(wire: WireKind, value: &mut Vec<u8>, buf: &'a [u8]) -> (r: Result<
    &'a [u8],
    DecodeError,
>)
    ensures
        match length_delimited_decoding(wire, buf@) {
            Some((data, n)) => r matches Ok(rest) && rest@ == buf@.skip(n as int)
                && final(value)@ == data,
            None => r is Err && final(value)@ == old(value)@,
        },
{
    let mut rest = buf;
    let wire_type = match wire {
        WireKind::Varint => WireType::Varint,
        WireKind::SixtyFourBit => WireType::SixtyFourBit,
        WireKind::LengthDelimited => WireType::LengthDelimited,
        WireKind::StartGroup => WireType::StartGroup,
        WireKind::EndGroup => WireType::EndGroup,
        WireKind::ThirtyTwoBit => WireType::ThirtyTwoBit,
    };
    let ctx = prost::encoding::DecodeContext::default();
    prost::encoding::bytes::merge(wire_type, value, &mut rest, ctx)?;
    Ok(rest)
}

/// `prost::encoding::string::merge` on a byte slice (with a fresh decode context): replaces
/// `value` with the text of a `string` field and gives the bytes after it; on failure
/// `value` is left empty.
#[verifier::external_body]
pub(crate) fn string_merge<'a>(wire: WireKind, value: &mut String, buf: &'a [u8]) -> (r: Result<
    &'a [u8],
    DecodeError,
>)
    ensures
        match string_value_decoding(wire, buf@) {
            Some((s, n)) => r matches Ok(rest) && rest@ == buf@.skip(n as int) && final(value)@
                == s,
            None => r is Err && final(value)@ == Seq::<char>::empty(),
        },
{
    let mut rest = buf;
    let wire_type = match wire {
        WireKind::Varint => WireType::Varint,
        WireKind::SixtyFourBit => WireType::SixtyFourBit,
        WireKind::LengthDelimited => WireType::LengthDelimited,
        WireKind::StartGroup => WireType::StartGroup,
        WireKind::EndGroup => WireType::EndGroup,
        WireKind::ThirtyTwoBit => WireType::ThirtyTwoBit,
    };
    let ctx = prost::encoding::DecodeContext::default();
    prost::encoding::string::merge(wire_type, value, &mut rest, ctx)?;
    Ok(rest)
}

/// `prost::encoding::skip_field` on a byte slice (with a fresh decode context): skips the
/// value of a field that the message does not know and gives the bytes after it.
#[verifier::external_body]
pub(crate) fn skip_field<'a>(wire: WireKind, tag: u32, buf: &'a [u8]) -> (r: Result<
    &'a [u8],
    DecodeError,
>)
    ensures
        wire != WireKind::StartGroup ==> match skipped_value_len(wire, buf@) {
            Some(n) => r matches Ok(rest) && rest@ == buf@.skip(n as int),
            None => r is Err,
        },
        wire == WireKind::StartGroup ==> match skipped_group_len(tag, buf@) {
            Some(n) => n <= buf@.len() && (r matches Ok(rest) && rest@ == buf@.skip(n as int)),
            None => r is Err,
        },
{
    let mut rest = buf;
    let wire_type = match wire {
        WireKind::Varint => WireType::Varint,
        WireKind::SixtyFourBit => WireType::SixtyFourBit,
        WireKind::LengthDelimited => WireType::LengthDelimited,
        WireKind::StartGroup => WireType::StartGroup,
        WireKind::EndGroup => WireType::EndGroup,
        WireKind::ThirtyTwoBit => WireType::ThirtyTwoBit,
    };
    let ctx = prost::encoding::DecodeContext::default();
    prost::encoding::skip_field(wire_type, tag, &mut rest, ctx)?;
    Ok(rest)
}

/// Reading a key back from its bytes, with any bytes after them.
pub proof fn lemma_key_roundtrip(tag: u32, k: WireKind, rest: Seq<u8>)
    requires
        valid_tag(tag),
    ensures
        key_decoding(key_encoding(tag, k) + rest) == Some(
            (tag, k, key_encoding(tag, k).len()),
        ),
{
    let key = key_value(tag, k);
    assert(key <= u64::MAX);
    lemma_varint_roundtrip(key as u64, rest);
    assert((key % 8) as nat == wire_code(k));
    assert(key / 8 == tag);
}

/// Reading an `int32` value back from the bytes that encode it.
pub proof fn lemma_int32_value_roundtrip(v: i32, rest: Seq<u8>)
    ensures
        int32_value_decoding(WireKind::Varint, varint_encoding((v as u64) as nat) + rest) == Some(
            (v, varint_encoding((v as u64) as nat).len()),
        ),
{
    lemma_varint_roundtrip(v as u64, rest);
    assert((v as u64) as i32 == v) by (bit_vector);
}

/// Reading a length-delimited value back from the bytes that encode it.
pub proof fn lemma_length_delimited_roundtrip(data: Seq<u8>, rest: Seq<u8>)
    requires
        data.len() <= u64::MAX,
    ensures
        length_delimited_decoding(
            WireKind::LengthDelimited,
            varint_encoding(data.len()) + data + rest,
        ) == Some((data, varint_encoding(data.len()).len() + data.len())),
{
    let p = varint_encoding(data.len());
    lemma_varint_roundtrip(data.len() as u64, data + rest);
    assert(p + data + rest =~= p + (data + rest));
    let s = p + data + rest;
    assert(s.subrange(p.len() as int, (p.len() + data.len()) as int) =~= data);
}

/// Reading a `string` value back from the bytes that encode it.
pub proof fn lemma_string_value_roundtrip(s: Seq<char>, rest: Seq<u8>)
    requires
        encode_utf8(s).len() <= u64::MAX,
    ensures
        string_value_decoding(
            WireKind::LengthDelimited,
            varint_encoding(encode_utf8(s).len()) + encode_utf8(s) + rest,
        ) == Some((s, varint_encoding(encode_utf8(s).len()).len() + encode_utf8(s).len())),
{
    lemma_length_delimited_roundtrip(encode_utf8(s), rest);
    vstd::utf8::encode_utf8_valid_utf8(s);
    vstd::utf8::encode_utf8_decode_utf8(s);
}

/// A key that reads takes at least one of the bytes and no more than there are.
pub proof fn lemma_key_decoding_len(bytes: Seq<u8>)
    ensures
        key_decoding(bytes) matches Some((_, _, n)) ==> 1 <= n <= bytes.len(),
{
    lemma_varint_decoding_len(bytes);
}

/// Reading a field value never takes more bytes than there are.
pub proof fn lemma_value_decoding_len(wire: WireKind, tag: u32, bytes: Seq<u8>)
    ensures
        int32_value_decoding(wire, bytes) matches Some((_, n)) ==> n <= bytes.len(),
        length_delimited_decoding(wire, bytes) matches Some((_, n)) ==> n <= bytes.len(),
        string_value_decoding(wire, bytes) matches Some((_, n)) ==> n <= bytes.len(),
        skipped_value_len(wire, bytes) matches Some(n) ==> n <= bytes.len(),
{
    lemma_varint_decoding_len(bytes);
}

} // verus!
