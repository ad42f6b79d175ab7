//! The laws of the format, proved once for every kind of value.

use vstd::prelude::*;
use crate::codec::{Codec, decode_with, decoded, encode_with, encoded};
use crate::endian::{Endian, lemma_word_len, to_signed, to_unsigned, word_bytes};
use crate::error::CodecError;
use crate::wire::{Wire, items_wire};
use crate::world::Vec3;

verus! {

/// Decoding what was encoded gives the value back, field for field, under
/// either byte order. Lists keep their order and their length, empty ones
/// included, and bytes that follow the message change nothing.
pub proof fn lemma_round_trip<M: Wire>(m: M, order: Endian, tail: Seq<u8>)
    requires
        m.encodable(),
    ensures
        decoded::<M>(encoded(m, order), order) == Ok::<M, CodecError>(m),
        decoded::<M>(encoded(m, order) + tail, order) == Ok::<M, CodecError>(m),
{
    m.lemma_round_trip(order, tail);
    m.lemma_round_trip(order, Seq::empty());
    assert(encoded(m, order) + Seq::<u8>::empty() =~= encoded(m, order));
}

/// The same law of the calls themselves: whatever `encode_with` returned for
/// a value, `decode_with` on those bytes returns a value with the same
/// model.
pub proof fn lemma_decode_after_encode<T: Codec>(
    value: &T,
    order: Endian,
    bytes: Vec<u8>,
    input: &[u8],
    back: Result<T, CodecError>,
)
    requires
        call_ensures(encode_with::<T>, (value, order), Ok::<Vec<u8>, CodecError>(bytes)),
        input@ == bytes@,
        call_ensures(decode_with::<T>, (input, order), back),
    ensures
        back matches Ok(copy) && copy.model() == value.model(),
{
    lemma_round_trip(value.model(), order, Seq::empty());
}

/// Encoding is a function of the value: two calls on one value, in one byte
/// order, end alike, and where they succeed they give the same bytes.
pub proof fn lemma_encode_deterministic<T: Codec>(
    value: &T,
    order: Endian,
    first: Result<Vec<u8>, CodecError>,
    second: Result<Vec<u8>, CodecError>,
)
    requires
        call_ensures(encode_with::<T>, (value, order), first),
        call_ensures(encode_with::<T>, (value, order), second),
    ensures
        match (first, second) {
            (Ok(a), Ok(b)) => a@ == b@,
            (Err(a), Err(b)) => a == b,
            _ => false,
        },
{
}

/// Values with the same model have the same bytes: nothing but the value
/// itself enters its encoding.
pub proof fn lemma_encoding_of_model<T: Codec>(a: &T, b: &T, order: Endian)
    requires
        a.model() == b.model(),
    ensures
        encoded(a.model(), order) == encoded(b.model(), order),
{
}

/// A list without items is written as its count alone, four zero bytes, and
/// those four bytes are read back as a list that is there and empty.
pub proof fn lemma_empty_list<T: Wire>(order: Endian, tail: Seq<u8>)
    ensures
        encoded(Seq::<T>::empty(), order) == seq![0u8, 0u8, 0u8, 0u8],
        Seq::<T>::parse(seq![0u8, 0u8, 0u8, 0u8] + tail, order) == Ok::<(Seq<T>, nat), CodecError>(
            (Seq::<T>::empty(), 4),
        ),
{
    let none = Seq::<T>::empty();
    assert(word_bytes(0, order) =~= seq![0u8, 0u8, 0u8, 0u8]) by {
        reveal(word_bytes);
    }
    assert(items_wire(none, order) =~= Seq::<u8>::empty()) by {
        reveal_with_fuel(items_wire, 1);
    }
    assert(encoded(none, order) =~= seq![0u8, 0u8, 0u8, 0u8]);
    none.lemma_round_trip(order, tail);
}

/// A message cut short at any byte before its end is never decoded: it is
/// refused with one of the two errors that mean the input ended too early.
pub proof fn lemma_truncation<M: Wire>(m: M, order: Endian, k: int)
    requires
        m.encodable(),
        0 <= k < encoded(m, order).len(),
    ensures
        decoded::<M>(encoded(m, order).take(k), order) matches Err(e) && e.is_truncation(),
{
    m.lemma_round_trip(order, Seq::empty());
    assert(encoded(m, order) + Seq::<u8>::empty() =~= encoded(m, order));
    M::lemma_parse_prefix(encoded(m, order), order, k);
}

/// The same of every buffer that decodes, whoever wrote it: no prefix that
/// ends before the value does is decoded, and every prefix that holds the
/// value whole decodes to it.
pub proof fn lemma_prefix<M: Wire>(bytes: Seq<u8>, order: Endian, k: int)
    requires
        decoded::<M>(bytes, order) is Ok,
        0 <= k <= bytes.len(),
    ensures
        M::parse(bytes, order) matches Ok((m, n)) && if k >= n {
            decoded::<M>(bytes.take(k), order) == decoded::<M>(bytes, order)
        } else {
            decoded::<M>(bytes.take(k), order) matches Err(e) && e.is_truncation()
        },
{
    M::lemma_parse_prefix(bytes, order, k);
}

/// A value is decoded from its own bytes alone: two buffers that begin with
/// the same bytes, as many as the value takes in the one that decodes, decode
/// to the same value.
pub proof fn lemma_local<M: Wire>(bytes: Seq<u8>, other: Seq<u8>, order: Endian)
    requires
        M::parse(bytes, order) matches Ok((m, n)) && other.len() >= n && other.take(n as int)
            == bytes.take(n as int),
    ensures
        decoded::<M>(other, order) == decoded::<M>(bytes, order),
{
    M::lemma_parse_bounds(bytes, order);
    let n = M::parse(bytes, order)->Ok_0.1;
    M::lemma_parse_prefix(bytes, order, n as int);
    M::lemma_parse_extend(bytes.take(n as int), order, other.skip(n as int));
    assert(other =~= other.take(n as int) + other.skip(n as int));
}

/// What was decoded can be encoded, and into as many bytes as it was read
/// from.
pub proof fn lemma_decoded_width<M: Wire>(bytes: Seq<u8>, order: Endian)
    ensures
        M::parse(bytes, order) matches Ok((m, n)) ==> m.encodable() && encoded(m, order).len()
            == n && n <= bytes.len(),
{
    M::lemma_parse_bounds(bytes, order);
}

/// The same law of the calls themselves: whatever `encode_with` returned for
/// a value, `decode_with` on a proper prefix of those bytes returns one of
/// the two errors that mean the input ended too early.
pub proof fn lemma_decode_of_cut<T: Codec>(
    value: &T,
    order: Endian,
    bytes: Vec<u8>,
    input: &[u8],
    back: Result<T, CodecError>,
)
    requires
        call_ensures(encode_with::<T>, (value, order), Ok::<Vec<u8>, CodecError>(bytes)),
        input@.len() < bytes@.len(),
        input@ == bytes@.take(input@.len() as int),
        call_ensures(decode_with::<T>, (input, order), back),
    ensures
        back matches Err(e) && e.is_truncation(),
{
    lemma_truncation(value.model(), order, input@.len() as int);
}

/// The two byte orders lay a number out as mirror images of each other.
pub proof fn lemma_orders_mirror(v: u32)
    ensures
        word_bytes(v, Endian::Little) == word_bytes(v, Endian::Big).reverse(),
{
    reveal(word_bytes);
    assert(word_bytes(v, Endian::Little) =~= word_bytes(v, Endian::Big).reverse());
}

/// A signed field keeps its sign and its value: every 32-bit integer,
/// negative ones included, is read back as it was written under either
/// byte order, and so is a point made of three of them.
pub proof fn lemma_sign_kept(v: i32, at: Vec3, order: Endian)
    ensures
        to_signed(to_unsigned(v)) == v,
        encoded(v, order).len() == 4,
        decoded::<i32>(encoded(v, order), order) == Ok::<i32, CodecError>(v),
        encoded(at, order).len() == 12,
        decoded::<Vec3>(encoded(at, order), order) == Ok::<Vec3, CodecError>(at),
{
    lemma_round_trip(v, order, Seq::empty());
    lemma_round_trip(at, order, Seq::empty());
    lemma_word_len(to_unsigned(v), order);
    lemma_word_len(to_unsigned(at.x), order);
    lemma_word_len(to_unsigned(at.y), order);
    lemma_word_len(to_unsigned(at.z), order);
}

} // verus!
