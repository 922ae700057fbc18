//! Base-128 varints (LEB128), as protobuf writes integers and length prefixes.
use crate::buffer::{buffer_contents, max_buffer_len};
use bytes::BytesMut;
use prost::DecodeError;
use vstd::prelude::*;

verus! {

/// `prost::DecodeError`, the error of every protobuf decoding step.
#[verifier::external_type_specification]
#[verifier::external_body]
pub struct ExDecodeError(DecodeError);

/// The varint encoding of `v`: seven bits per byte, least significant group first,
/// the high bit set on every byte but the last.
pub open spec fn varint_encoding(v: nat) -> Seq<u8>
    decreases v,
{
    if v < 128 {
        seq![v as u8]
    } else {
        seq![(v % 128 + 128) as u8] + varint_encoding(v / 128)
    }
}

/// The number that the low seven bits of `bytes` spell, least significant group first.
pub open spec fn base128_value(bytes: Seq<u8>) -> nat
    decreases bytes.len(),
{
    if bytes.len() == 0 {
        0
    } else {
        (bytes[0] % 128) as nat + 128 * base128_value(bytes.drop_first())
    }
}

/// The index, from `i` on and below ten, of the first byte whose high bit is clear.
pub open spec fn varint_end_from(bytes: Seq<u8>, i: nat) -> Option<nat>
    decreases 10 - i,
{
    if i >= 10 || i >= bytes.len() {
        None
    } else if bytes[i as int] < 128 {
        Some(i)
    } else {
        varint_end_from(bytes, i + 1)
    }
}

/// What reading a varint at the front of `bytes` gives: the value and the number of bytes
/// it takes. A varint ends at the first byte below 0x80 among the first ten; a tenth byte
/// above 1 would overflow 64 bits; both failures give `None`.
pub open spec fn varint_decoding(bytes: Seq<u8>) -> Option<(u64, nat)> {
    match varint_end_from(bytes, 0) {
        None => None,
        Some(i) => if i == 9 && bytes[9] >= 2 {
            None
        } else {
            Some((base128_value(bytes.take((i + 1) as int)) as u64, i + 1))
        },
    }
}

/// `prost::encoding::encode_varint` into a `BytesMut`: appends the varint encoding of `value`.
#[verifier::external_body]
pub(crate) fn encode_varint(value: u64, buf: &mut BytesMut)
    requires
        buffer_contents(*old(buf)).len() + varint_encoding(value as nat).len() <= max_buffer_len(),
    ensures
        buffer_contents(*final(buf)) == buffer_contents(*old(buf)) + varint_encoding(value as nat),
{
    prost::encoding::encode_varint(value, buf)
}

/// `prost::encoding::encoded_len_varint`: the length of the varint encoding of `value`.
#[verifier::external_body]
pub(crate) fn encoded_len_varint(value: u64) -> (n: usize)
    ensures
        n == varint_encoding(value as nat).len(),
{
    prost::encoding::encoded_len_varint(value)
}

/// `prost::encoding::decode_varint` on a byte slice: the value read and the bytes after it.
#[verifier::external_body]
pub(crate) fn decode_varint(buf: &[u8]) -> (r: Result<(u64, &[u8]), DecodeError>)
    ensures
        match varint_decoding(buf@) {
            Some((v, n)) => r matches Ok((x, rest)) && x == v && rest@ == buf@.skip(n as int),
            None => r is Err,
        },
{
    let mut rest = buf;
    let value = prost::encoding::decode_varint(&mut rest)?;
    Ok((value, rest))
}

/// 128 to the power `k`.
pub open spec fn pow128(k: nat) -> nat
    decreases k,
{
    if k == 0 {
        1
    } else {
        128 * pow128((k - 1) as nat)
    }
}

/// The shape of an encoding: not empty, every byte but the last has its high bit set,
/// the last has it clear, and the low bits spell `v`.
pub proof fn lemma_varint_encoding_shape(v: nat)
    ensures
        varint_encoding(v).len() >= 1,
        forall|i: int|
            0 <= i < varint_encoding(v).len() - 1 ==> #[trigger] varint_encoding(v)[i] >= 128,
        varint_encoding(v).last() < 128,
        base128_value(varint_encoding(v)) == v,
    decreases v,
{
    let e = varint_encoding(v);
    if v < 128 {
        assert(e.drop_first() =~= Seq::<u8>::empty());
        assert(base128_value(e.drop_first()) == 0);
    } else {
        lemma_varint_encoding_shape(v / 128);
        let t = varint_encoding(v / 128);
        assert(e.drop_first() =~= t);
        assert(e[0] % 128 == v % 128);
        assert forall|i: int| 0 <= i < e.len() - 1 implies #[trigger] e[i] >= 128 by {
            if i > 0 {
                assert(e[i] == t[i - 1]);
            }
        }
    }
}

/// An encoding of a value below `c * 128^k` (with `c <= 128`) is at most `k + 1` bytes long,
/// and when it is exactly that long its last byte is below `c`.
pub proof fn lemma_varint_encoding_len(v: nat, k: nat, c: nat)
    requires
        1 <= c <= 128,
        v < c * pow128(k),
    ensures
        varint_encoding(v).len() <= k + 1,
        varint_encoding(v).len() == k + 1 ==> varint_encoding(v).last() < c,
    decreases k,
{
    if k == 0 {
        assert(pow128(0) == 1);
        assert(v < c) by (nonlinear_arith)
            requires
                v < c * pow128(0),
                pow128(0) == 1,
        ;
    } else {
        if v >= 128 {
            let p = pow128((k - 1) as nat);
            assert(pow128(k) == 128 * p);
            assert(v / 128 < c * p) by (nonlinear_arith)
                requires
                    v < c * (128 * p),
            ;
            lemma_varint_encoding_len(v / 128, (k - 1) as nat, c);
            assert(varint_encoding(v).last() == varint_encoding(v / 128).last());
        }
    }
}

/// An encoding of a 64-bit value takes at most ten bytes, and a tenth byte is 0 or 1.
pub proof fn lemma_varint_encoding_u64(v: u64)
    ensures
        varint_encoding(v as nat).len() <= 10,
        varint_encoding(v as nat).len() == 10 ==> varint_encoding(v as nat).last() < 2,
{
    reveal_with_fuel(pow128, 10);
    assert(pow128(9) == 0x8000000000000000nat);
    lemma_varint_encoding_len(v as nat, 9, 2);
}

/// The end of the varint in front of `e + rest` is the last byte of `e`.
proof fn lemma_varint_end(e: Seq<u8>, rest: Seq<u8>, i: nat)
    requires
        1 <= e.len() <= 10,
        i < e.len(),
        forall|j: int| 0 <= j < e.len() - 1 ==> #[trigger] e[j] >= 128,
        e.last() < 128,
    ensures
        varint_end_from(e + rest, i) == Some((e.len() - 1) as nat),
    decreases e.len() - i,
{
    let s = e + rest;
    assert(s[i as int] == e[i as int]);
    if i < e.len() - 1 {
        lemma_varint_end(e, rest, i + 1);
    }
}

/// Reading a varint back from its encoding, with any bytes after it, gives the value and
/// the length of the encoding.
pub proof fn lemma_varint_roundtrip(v: u64, rest: Seq<u8>)
    ensures
        varint_decoding(varint_encoding(v as nat) + rest) == Some(
            (v, varint_encoding(v as nat).len()),
        ),
{
    let e = varint_encoding(v as nat);
    lemma_varint_encoding_shape(v as nat);
    lemma_varint_encoding_u64(v);
    lemma_varint_end(e, rest, 0);
    let s = e + rest;
    assert(s.take(e.len() as int) =~= e);
    if e.len() == 10 {
        assert(s[9] == e.last());
    }
}

/// The end found by `varint_end_from` lies in the bytes and among the first ten.
proof fn lemma_varint_end_bounds(bytes: Seq<u8>, i: nat)
    ensures
        varint_end_from(bytes, i) matches Some(j) ==> i <= j < bytes.len() && j < 10,
    decreases 10 - i,
{
    if i < 10 && i < bytes.len() && bytes[i as int] >= 128 {
        lemma_varint_end_bounds(bytes, i + 1);
    }
}

/// A varint that reads takes between one and ten of the bytes.
pub proof fn lemma_varint_decoding_len(bytes: Seq<u8>)
    ensures
        varint_decoding(bytes) matches Some((_, n)) ==> 1 <= n <= bytes.len() && n <= 10,
{
    lemma_varint_end_bounds(bytes, 0);
}

} // verus!
