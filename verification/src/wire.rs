//! The mathematical model of the format: what each kind of value looks like
//! on the wire, and what a run of bytes is read as.

use vstd::prelude::*;
use vstd::utf8::*;
use crate::endian::{
    Endian, lemma_word_len, lemma_word_round_trip, lemma_word_value_extend,
    lemma_word_value_prefix, to_signed, to_unsigned, word_bytes, word_value,
};
use crate::error::CodecError;

verus! {

/// A kind of value with a place in the format.
pub trait Wire: Sized {
    /// Whether the value can be written at all: every string and list in it
    /// has a length that fits the 32-bit prefix.
    spec fn encodable(self) -> bool;

    /// The bytes that stand for the value.
    spec fn wire(self, order: Endian) -> Seq<u8>;

    /// What the front of `bytes` is read as: the value and the number of
    /// bytes it occupies, or the first fault met.
    spec fn parse(bytes: Seq<u8>, order: Endian) -> Result<(Self, nat), CodecError>;

    /// The least number of bytes that any value of this kind occupies.
    spec fn min_width() -> nat;

    /// No value is shorter than the least width, which is never zero.
    proof fn lemma_width(self, order: Endian)
        ensures
            1 <= Self::min_width() <= self.wire(order).len(),
    ;

    /// What is read lies within the bytes given, and can be written again
    /// into as many bytes as it was read from.
    proof fn lemma_parse_bounds(bytes: Seq<u8>, order: Endian)
        ensures
            Self::parse(bytes, order) matches Ok((v, n)) ==> Self::min_width() <= n <= bytes.len()
                && v.encodable() && v.wire(order).len() == n,
    ;

    /// What was written is read back, whatever follows it.
    proof fn lemma_round_trip(self, order: Endian, tail: Seq<u8>)
        requires
            self.encodable(),
        ensures
            Self::parse(self.wire(order) + tail, order) == Ok::<(Self, nat), CodecError>(
                (self, self.wire(order).len()),
            ),
    ;

    /// What follows a value does not enter its reading: bytes that are read
    /// as a value are read the same with any bytes added behind them.
    proof fn lemma_parse_extend(bytes: Seq<u8>, order: Endian, tail: Seq<u8>)
        requires
            Self::parse(bytes, order) is Ok,
        ensures
            Self::parse(bytes + tail, order) == Self::parse(bytes, order),
    ;

    /// A value is read from its own bytes alone: of bytes that are read as
    /// a value, every prefix that still holds the value's bytes is read the
    /// same, and every shorter prefix is refused as ending too early.
    proof fn lemma_parse_prefix(bytes: Seq<u8>, order: Endian, k: int)
        requires
            Self::parse(bytes, order) is Ok,
            0 <= k <= bytes.len(),
        ensures
            Self::parse(bytes, order) matches Ok((v, n)) && if k >= n {
                Self::parse(bytes.take(k), order) == Self::parse(bytes, order)
            } else {
                Self::parse(bytes.take(k), order) matches Err(e) && e.is_truncation()
            },
    ;
}

impl Wire for i32 {
    open spec fn encodable(self) -> bool {
        true
    }

    open spec fn wire(self, order: Endian) -> Seq<u8> {
        word_bytes(to_unsigned(self), order)
    }

    open spec fn parse(bytes: Seq<u8>, order: Endian) -> Result<(Self, nat), CodecError> {
        if bytes.len() < 4 {
            Err(CodecError::TruncatedInput)
        } else {
            Ok((to_signed(word_value(bytes, order)), 4))
        }
    }

    open spec fn min_width() -> nat {
        4
    }

    proof fn lemma_width(self, order: Endian) {
        lemma_word_len(to_unsigned(self), order);
    }

    proof fn lemma_parse_bounds(bytes: Seq<u8>, order: Endian) {
        lemma_word_len(to_unsigned(to_signed(word_value(bytes, order))), order);
    }

    proof fn lemma_round_trip(self, order: Endian, tail: Seq<u8>) {
        lemma_word_round_trip(to_unsigned(self), order, tail);
    }

    proof fn lemma_parse_extend(bytes: Seq<u8>, order: Endian, tail: Seq<u8>) {
        lemma_word_value_extend(bytes, order, tail);
    }

    proof fn lemma_parse_prefix(bytes: Seq<u8>, order: Endian, k: int) {
        if k >= 4 {
            lemma_word_value_prefix(bytes, order, k);
        }
    }
}

impl Wire for bool {
    open spec fn encodable(self) -> bool {
        true
    }

    open spec fn wire(self, order: Endian) -> Seq<u8> {
        if self {
            seq![1u8]
        } else {
            seq![0u8]
        }
    }

    open spec fn parse(bytes: Seq<u8>, order: Endian) -> Result<(Self, nat), CodecError> {
        if bytes.len() < 1 {
            Err(CodecError::TruncatedInput)
        } else {
            Ok((bytes[0] != 0, 1))
        }
    }

    open spec fn min_width() -> nat {
        1
    }

    proof fn lemma_width(self, order: Endian) {
    }

    proof fn lemma_parse_bounds(bytes: Seq<u8>, order: Endian) {
    }

    proof fn lemma_round_trip(self, order: Endian, tail: Seq<u8>) {
        assert((self.wire(order) + tail)[0] == self.wire(order)[0]);
    }

    proof fn lemma_parse_extend(bytes: Seq<u8>, order: Endian, tail: Seq<u8>) {
        assert((bytes + tail)[0] == bytes[0]);
    }

    proof fn lemma_parse_prefix(bytes: Seq<u8>, order: Endian, k: int) {
        if k >= 1 {
            assert(bytes.take(k)[0] == bytes[0]);
        }
    }
}

/// A string: the length of its UTF-8 form in bytes, then that form.
impl Wire for Seq<char> {
    open spec fn encodable(self) -> bool {
        encode_utf8(self).len() <= u32::MAX
    }

    open spec fn wire(self, order: Endian) -> Seq<u8> {
        word_bytes(encode_utf8(self).len() as u32, order) + encode_utf8(self)
    }

    open spec fn parse(bytes: Seq<u8>, order: Endian) -> Result<(Self, nat), CodecError> {
        if bytes.len() < 4 {
            Err(CodecError::TruncatedInput)
        } else {
            let len = word_value(bytes, order) as int;
            if len > bytes.len() - 4 {
                Err(CodecError::InvalidLength)
            } else if !valid_utf8(bytes.subrange(4, 4 + len)) {
                Err(CodecError::InvalidEncoding)
            } else {
                Ok((decode_utf8(bytes.subrange(4, 4 + len)), (4 + len) as nat))
            }
        }
    }

    open spec fn min_width() -> nat {
        4
    }

    proof fn lemma_width(self, order: Endian) {
        lemma_word_len(encode_utf8(self).len() as u32, order);
    }

    proof fn lemma_parse_bounds(bytes: Seq<u8>, order: Endian) {
        if bytes.len() >= 4 {
            let len = word_value(bytes, order) as int;
            if len <= bytes.len() - 4 && valid_utf8(bytes.subrange(4, 4 + len)) {
                decode_utf8_encode_utf8(bytes.subrange(4, 4 + len));
                lemma_word_len(len as u32, order);
            }
        }
    }

    proof fn lemma_round_trip(self, order: Endian, tail: Seq<u8>) {
        let body = encode_utf8(self);
        let bytes = self.wire(order) + tail;
        lemma_word_round_trip(body.len() as u32, order, body + tail);
        assert(bytes =~= word_bytes(body.len() as u32, order) + (body + tail));
        assert(bytes.subrange(4, 4 + body.len() as int) =~= body);
        encode_utf8_valid_utf8(self);
        encode_utf8_decode_utf8(self);
    }

    proof fn lemma_parse_extend(bytes: Seq<u8>, order: Endian, tail: Seq<u8>) {
        let len = word_value(bytes, order) as int;
        lemma_word_value_extend(bytes, order, tail);
        assert((bytes + tail).subrange(4, 4 + len) =~= bytes.subrange(4, 4 + len));
    }

    proof fn lemma_parse_prefix(bytes: Seq<u8>, order: Endian, k: int) {
        if k >= 4 {
            let len = word_value(bytes, order) as int;
            lemma_word_value_prefix(bytes, order, k);
            if k >= 4 + len {
                assert(bytes.take(k).subrange(4, 4 + len) =~= bytes.subrange(4, 4 + len));
            }
        }
    }
}

/// The UTF-8 form of a text has at least one byte and at most four for each
/// character.
pub proof fn lemma_utf8_len(chars: Seq<char>)
    ensures
        chars.len() <= encode_utf8(chars).len() <= 4 * chars.len(),
    decreases chars.len(),
{
    if chars.len() > 0 {
        lemma_utf8_len(chars.drop_first());
    }
}

/// Every text of fewer than 2^30 characters can be written.
pub proof fn lemma_text_encodable(chars: Seq<char>)
    requires
        chars.len() < 0x4000_0000,
    ensures
        chars.encodable(),
{
    lemma_utf8_len(chars);
}

/// Two values one after the other, with nothing between them. A record is
/// the run of its fields in declaration order, which is the first field
/// paired with the run of the others.
impl<A: Wire, B: Wire> Wire for (A, B) {
    open spec fn encodable(self) -> bool {
        self.0.encodable() && self.1.encodable()
    }

    open spec fn wire(self, order: Endian) -> Seq<u8> {
        self.0.wire(order) + self.1.wire(order)
    }

    open spec fn parse(bytes: Seq<u8>, order: Endian) -> Result<(Self, nat), CodecError> {
        match A::parse(bytes, order) {
            Err(e) => Err(e),
            Ok((first, n)) => match B::parse(bytes.skip(n as int), order) {
                Err(e) => Err(e),
                Ok((second, m)) => Ok(((first, second), n + m)),
            },
        }
    }

    open spec fn min_width() -> nat {
        A::min_width() + B::min_width()
    }

    proof fn lemma_width(self, order: Endian) {
        self.0.lemma_width(order);
        self.1.lemma_width(order);
    }

    proof fn lemma_parse_bounds(bytes: Seq<u8>, order: Endian) {
        A::lemma_parse_bounds(bytes, order);
        if let Ok((first, n)) = A::parse(bytes, order) {
            B::lemma_parse_bounds(bytes.skip(n as int), order);
        }
    }

    proof fn lemma_round_trip(self, order: Endian, tail: Seq<u8>) {
        let head = self.0.wire(order);
        let rest = self.1.wire(order);
        let bytes = self.wire(order) + tail;
        assert(bytes =~= head + (rest + tail));
        self.0.lemma_round_trip(order, rest + tail);
        assert(bytes.skip(head.len() as int) =~= rest + tail);
        self.1.lemma_round_trip(order, tail);
    }

    proof fn lemma_parse_extend(bytes: Seq<u8>, order: Endian, tail: Seq<u8>) {
        A::lemma_parse_bounds(bytes, order);
        A::lemma_parse_extend(bytes, order, tail);
        let n = A::parse(bytes, order)->Ok_0.1;
        assert((bytes + tail).skip(n as int) =~= bytes.skip(n as int) + tail);
        B::lemma_parse_extend(bytes.skip(n as int), order, tail);
    }

    proof fn lemma_parse_prefix(bytes: Seq<u8>, order: Endian, k: int) {
        A::lemma_parse_bounds(bytes, order);
        A::lemma_parse_prefix(bytes, order, k);
        let n = A::parse(bytes, order)->Ok_0.1;
        if k >= n {
            assert(bytes.take(k).skip(n as int) =~= bytes.skip(n as int).take(k - n));
            B::lemma_parse_prefix(bytes.skip(n as int), order, k - n);
        }
    }
}

/// A list: the number of its items, then the items one after another.
impl<T: Wire> Wire for Seq<T> {
    open spec fn encodable(self) -> bool {
        &&& self.len() <= u32::MAX
        &&& forall|i: int| 0 <= i < self.len() ==> (#[trigger] self[i]).encodable()
    }

    open spec fn wire(self, order: Endian) -> Seq<u8> {
        word_bytes(self.len() as u32, order) + items_wire(self, order)
    }

    open spec fn parse(bytes: Seq<u8>, order: Endian) -> Result<(Self, nat), CodecError> {
        if bytes.len() < 4 {
            Err(CodecError::TruncatedInput)
        } else {
            let count = word_value(bytes, order) as nat;
            if count * T::min_width() > bytes.len() - 4 {
                Err(CodecError::InvalidLength)
            } else {
                match items_parse::<T>(bytes.skip(4), count, order) {
                    Err(e) => Err(e),
                    Ok((items, used)) => Ok((items, 4 + used)),
                }
            }
        }
    }

    open spec fn min_width() -> nat {
        4
    }

    proof fn lemma_width(self, order: Endian) {
        lemma_word_len(self.len() as u32, order);
    }

    proof fn lemma_parse_bounds(bytes: Seq<u8>, order: Endian) {
        if bytes.len() >= 4 {
            let count = word_value(bytes, order) as nat;
            lemma_items_parse_bounds::<T>(bytes.skip(4), count, order);
            lemma_word_len(count as u32, order);
        }
    }

    proof fn lemma_round_trip(self, order: Endian, tail: Seq<u8>) {
        let body = items_wire(self, order);
        let bytes = self.wire(order) + tail;
        lemma_word_round_trip(self.len() as u32, order, body + tail);
        assert(bytes =~= word_bytes(self.len() as u32, order) + (body + tail));
        lemma_items_wire_len(self, order);
        assert(bytes.skip(4) =~= body + tail);
        lemma_items_round_trip(self, order, tail);
    }

    proof fn lemma_parse_extend(bytes: Seq<u8>, order: Endian, tail: Seq<u8>) {
        let count = word_value(bytes, order) as nat;
        lemma_word_value_extend(bytes, order, tail);
        assert((bytes + tail).skip(4) =~= bytes.skip(4) + tail);
        lemma_items_parse_extend::<T>(bytes.skip(4), count, order, tail);
    }

    proof fn lemma_parse_prefix(bytes: Seq<u8>, order: Endian, k: int) {
        if k >= 4 {
            let count = word_value(bytes, order) as nat;
            lemma_word_value_prefix(bytes, order, k);
            lemma_items_parse_bounds::<T>(bytes.skip(4), count, order);
            if count * T::min_width() <= k - 4 {
                assert(bytes.take(k).skip(4) =~= bytes.skip(4).take(k - 4));
                lemma_items_parse_prefix::<T>(bytes.skip(4), count, order, k - 4);
            }
        }
    }
}

/// The items of a list one after another, without the count.
#[verifier::opaque]
pub open spec fn items_wire<T: Wire>(items: Seq<T>, order: Endian) -> Seq<u8>
    decreases items.len(),
{
    if items.len() == 0 {
        Seq::empty()
    } else {
        items_wire(items.drop_last(), order) + items.last().wire(order)
    }
}

/// What the front of `bytes` is read as when `count` items are expected: the
/// items and the bytes they occupy together, or the fault of the first item
/// that cannot be read.
#[verifier::opaque]
pub open spec fn items_parse<T: Wire>(bytes: Seq<u8>, count: nat, order: Endian) -> Result<
    (Seq<T>, nat),
    CodecError,
>
    decreases count,
{
    if count == 0 {
        Ok((Seq::empty(), 0))
    } else {
        match items_parse::<T>(bytes, (count - 1) as nat, order) {
            Err(e) => Err(e),
            Ok((front, used)) => match T::parse(bytes.skip(used as int), order) {
                Err(e) => Err(e),
                Ok((item, n)) => Ok((front.push(item), used + n)),
            },
        }
    }
}

/// A run of items is at least as long as their number times the least width
/// of one.
pub proof fn lemma_items_wire_len<T: Wire>(items: Seq<T>, order: Endian)
    ensures
        items_wire(items, order).len() >= items.len() * T::min_width(),
    decreases items.len(),
{
    reveal_with_fuel(items_wire, 2);
    if items.len() > 0 {
        let front = items.drop_last();
        lemma_items_wire_len(front, order);
        items.last().lemma_width(order);
        assert(items.len() * T::min_width() == front.len() * T::min_width() + T::min_width())
            by (nonlinear_arith)
            requires
                items.len() == front.len() + 1,
        ;
    }
}

/// Items that are read number as many as were asked for, lie within the
/// bytes given, and can be written again into as many bytes as they were
/// read from.
pub proof fn lemma_items_parse_bounds<T: Wire>(bytes: Seq<u8>, count: nat, order: Endian)
    ensures
        items_parse::<T>(bytes, count, order) matches Ok((items, used)) ==> {
            &&& items.len() == count
            &&& count * T::min_width() <= used <= bytes.len()
            &&& forall|i: int| 0 <= i < items.len() ==> (#[trigger] items[i]).encodable()
            &&& items_wire(items, order).len() == used
        },
    decreases count,
{
    reveal_with_fuel(items_parse, 2);
    reveal_with_fuel(items_wire, 2);
    if count > 0 {
        let fewer = (count - 1) as nat;
        lemma_items_parse_bounds::<T>(bytes, fewer, order);
        if let Ok((front, used)) = items_parse::<T>(bytes, fewer, order) {
            T::lemma_parse_bounds(bytes.skip(used as int), order);
            if let Ok((item, n)) = T::parse(bytes.skip(used as int), order) {
                assert(front.push(item).drop_last() =~= front);
            }
            assert(count * T::min_width() == fewer * T::min_width() + T::min_width())
                by (nonlinear_arith)
                requires
                    count == fewer + 1,
            ;
        }
    }
}

/// A run of items that was written is read back item for item, whatever
/// follows it.
pub proof fn lemma_items_round_trip<T: Wire>(items: Seq<T>, order: Endian, tail: Seq<u8>)
    requires
        forall|i: int| 0 <= i < items.len() ==> (#[trigger] items[i]).encodable(),
    ensures
        items_parse::<T>(items_wire(items, order) + tail, items.len(), order) == Ok::<
            (Seq<T>, nat),
            CodecError,
        >((items, items_wire(items, order).len())),
    decreases items.len(),
{
    reveal_with_fuel(items_wire, 2);
    reveal_with_fuel(items_parse, 2);
    if items.len() > 0 {
        let front = items.drop_last();
        let last = items.last();
        let bytes = items_wire(items, order) + tail;
        lemma_items_round_trip(front, order, last.wire(order) + tail);
        assert(bytes =~= items_wire(front, order) + (last.wire(order) + tail));
        assert(bytes.skip(items_wire(front, order).len() as int) =~= last.wire(order) + tail);
        last.lemma_round_trip(order, tail);
        assert(front.push(last) =~= items);
    } else {
        assert(items =~= Seq::empty());
    }
}

/// What follows a run of items does not enter its reading.
pub proof fn lemma_items_parse_extend<T: Wire>(
    bytes: Seq<u8>,
    count: nat,
    order: Endian,
    tail: Seq<u8>,
)
    requires
        items_parse::<T>(bytes, count, order) is Ok,
    ensures
        items_parse::<T>(bytes + tail, count, order) == items_parse::<T>(bytes, count, order),
    decreases count,
{
    reveal_with_fuel(items_parse, 2);
    if count > 0 {
        let fewer = (count - 1) as nat;
        lemma_items_parse_extend::<T>(bytes, fewer, order, tail);
        lemma_items_parse_bounds::<T>(bytes, fewer, order);
        let used = items_parse::<T>(bytes, fewer, order)->Ok_0.1;
        assert((bytes + tail).skip(used as int) =~= bytes.skip(used as int) + tail);
        T::lemma_parse_extend(bytes.skip(used as int), order, tail);
    }
}

/// Items are read from their own bytes alone: of bytes that are read as
/// `count` items, every prefix that still holds the items' bytes is read the
/// same, and every shorter prefix is refused as ending too early.
pub proof fn lemma_items_parse_prefix<T: Wire>(bytes: Seq<u8>, count: nat, order: Endian, k: int)
    requires
        items_parse::<T>(bytes, count, order) is Ok,
        0 <= k <= bytes.len(),
    ensures
        items_parse::<T>(bytes, count, order) matches Ok((items, used)) && if k >= used {
            items_parse::<T>(bytes.take(k), count, order) == items_parse::<T>(bytes, count, order)
        } else {
            items_parse::<T>(bytes.take(k), count, order) matches Err(e) && e.is_truncation()
        },
    decreases count,
{
    reveal_with_fuel(items_parse, 2);
    if count > 0 {
        let fewer = (count - 1) as nat;
        lemma_items_parse_prefix::<T>(bytes, fewer, order, k);
        lemma_items_parse_bounds::<T>(bytes, fewer, order);
        let used = items_parse::<T>(bytes, fewer, order)->Ok_0.1;
        if k >= used {
            assert(bytes.take(k).skip(used as int) =~= bytes.skip(used as int).take(k - used));
            T::lemma_parse_prefix(bytes.skip(used as int), order, k - used);
        }
    }
}

} // verus!
