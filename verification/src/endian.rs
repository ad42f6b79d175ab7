//! Byte order and the layout of 32-bit integers on the wire.

use vstd::prelude::*;

verus! {

/// Order of the bytes of a multi-byte integer. One buffer keeps one order for
/// its whole life.
#[derive(Clone, Copy, Debug, PartialEq, Eq, Hash, Structural)]
pub enum Endian {
    /// Most significant byte first (network order).
    Big,
    /// Least significant byte first.
    Little,
}

/// The byte of `v` of weight `256^k`, for `k` in `0..4`.
pub open spec fn byte_of(v: u32, k: int) -> u8 {
    if k == 0 {
        (v % 0x100) as u8
    } else if k == 1 {
        (v / 0x100 % 0x100) as u8
    } else if k == 2 {
        (v / 0x1_0000 % 0x100) as u8
    } else {
        (v / 0x100_0000 % 0x100) as u8
    }
}

/// The four bytes that stand for `v` in the given order.
#[verifier::opaque]
pub open spec fn word_bytes(v: u32, order: Endian) -> Seq<u8> {
    match order {
        Endian::Big => seq![byte_of(v, 3), byte_of(v, 2), byte_of(v, 1), byte_of(v, 0)],
        Endian::Little => seq![byte_of(v, 0), byte_of(v, 1), byte_of(v, 2), byte_of(v, 3)],
    }
}

/// The number that the first four bytes of `bytes` stand for in the given
/// order.
#[verifier::opaque]
pub open spec fn word_value(bytes: Seq<u8>, order: Endian) -> u32
    recommends
        bytes.len() >= 4,
{
    match order {
        Endian::Big => (bytes[0] * 0x100_0000 + bytes[1] * 0x1_0000 + bytes[2] * 0x100
            + bytes[3]) as u32,
        Endian::Little => (bytes[3] * 0x100_0000 + bytes[2] * 0x1_0000 + bytes[1] * 0x100
            + bytes[0]) as u32,
    }
}

/// The two's-complement image of a signed 32-bit integer.
pub open spec fn to_unsigned(v: i32) -> u32 {
    if v >= 0 {
        v as u32
    } else {
        (v + 0x1_0000_0000) as u32
    }
}

/// The signed integer whose two's-complement image is `u`.
pub open spec fn to_signed(u: u32) -> i32 {
    if u < 0x8000_0000 {
        u as i32
    } else {
        (u - 0x1_0000_0000) as i32
    }
}

/// A number is laid out in four bytes.
pub proof fn lemma_word_len(v: u32, order: Endian)
    ensures
        word_bytes(v, order).len() == 4,
{
    reveal(word_bytes);
}

/// Reading back the bytes of a number gives the number that was laid out,
/// whatever follows them.
pub proof fn lemma_word_round_trip(v: u32, order: Endian, tail: Seq<u8>)
    ensures
        word_bytes(v, order).len() == 4,
        word_value(word_bytes(v, order) + tail, order) == v,
{
    reveal(word_bytes);
    reveal(word_value);
    let b = word_bytes(v, order) + tail;
    assert(b[0] == word_bytes(v, order)[0]);
    assert(b[1] == word_bytes(v, order)[1]);
    assert(b[2] == word_bytes(v, order)[2]);
    assert(b[3] == word_bytes(v, order)[3]);
}

/// The number that bytes stand for does not change with what follows them.
pub proof fn lemma_word_value_extend(bytes: Seq<u8>, order: Endian, tail: Seq<u8>)
    requires
        bytes.len() >= 4,
    ensures
        word_value(bytes + tail, order) == word_value(bytes, order),
{
    assert((bytes + tail).take(bytes.len() as int) =~= bytes);
    lemma_word_value_prefix(bytes + tail, order, bytes.len() as int);
}

/// The number that bytes stand for is that of their first four alone.
pub proof fn lemma_word_value_prefix(bytes: Seq<u8>, order: Endian, k: int)
    requires
        4 <= k <= bytes.len(),
    ensures
        word_value(bytes.take(k), order) == word_value(bytes, order),
{
    reveal(word_value);
    let front = bytes.take(k);
    assert(front[0] == bytes[0] && front[1] == bytes[1] && front[2] == bytes[2] && front[3]
        == bytes[3]);
}

/// The two's-complement image of `v`.
pub fn unsigned_of(v: i32) -> (u: u32)
    ensures
        u == to_unsigned(v),
{
    if v >= 0 {
        v as u32
    } else {
        (v as i64 + 0x1_0000_0000) as u32
    }
}

/// The signed integer with two's-complement image `u`.
pub fn signed_of(u: u32) -> (v: i32)
    ensures
        v == to_signed(u),
{
    if u < 0x8000_0000 {
        u as i32
    } else {
        (u as i64 - 0x1_0000_0000) as i32
    }
}

/// The number that the four bytes of `bytes` from `at` on stand for.
pub fn word_at(bytes: &[u8], at: usize, order: Endian) -> (v: u32)
    requires
        at + 4 <= bytes@.len(),
    ensures
        v == word_value(bytes@.skip(at as int), order),
{
    proof {
        reveal(word_value);
    }
    let b0: u32 = bytes[at] as u32;
    let b1: u32 = bytes[at + 1] as u32;
    let b2: u32 = bytes[at + 2] as u32;
    let b3: u32 = bytes[at + 3] as u32;
    match order {
        Endian::Big => b0 * 0x100_0000 + b1 * 0x1_0000 + b2 * 0x100 + b3,
        Endian::Little => b3 * 0x100_0000 + b2 * 0x1_0000 + b1 * 0x100 + b0,
    }
}

} // verus!
