//! Encoding and decoding of values: the trait that every kind of value in a
//! schema implements, its instances for scalars, strings and lists, and the
//! calls that own the buffer for a whole message.

use vstd::prelude::*;
use crate::endian::{Endian, word_bytes};
use crate::error::CodecError;
use crate::reader::{Cursor, Reader, parse_count};
use crate::wire::{Wire, items_parse, items_wire};
use crate::writer::Writer;

verus! {

/// The byte order of `encode` and `decode`.
pub const DEFAULT_ORDER: Endian = Endian::Big;

/// The number of bytes that `encode` reserves before it starts to write.
pub const CAPACITY_HINT: usize = 4096;

/// A value that has a place in the format. Its model is the mathematical
/// value it stands for, and the model says what its bytes are.
pub trait Codec: Sized {
    /// The mathematical value that a value of this type stands for.
    type Model: Wire;

    /// The model of this value.
    spec fn model(&self) -> Self::Model;

    /// The least number of bytes that a value of this kind occupies.
    fn min_width() -> (w: u32)
        ensures
            w == <Self::Model as Wire>::min_width(),
    ;

    /// Appends the value to `writer`, field after field in declaration
    /// order. A value with a string or list too long for its prefix is
    /// refused, and the writer is left as it was.
    fn encode_to(&self, writer: &mut Writer) -> (r: Result<(), CodecError>)
        ensures
            final(writer).order() == old(writer).order(),
            self.model().encodable() ==> r.is_ok()
                && final(writer)@ == old(writer)@ + self.model().wire(old(writer).order()),
            !self.model().encodable() ==> r == Err::<(), CodecError>(CodecError::InvalidLength)
                && final(writer)@ == old(writer)@,
    ;

    /// Reads a value from `reader`, field after field in declaration order,
    /// and moves the reader past it. On the first fault the reader is left
    /// where it was.
    fn decode_from(reader: &mut Reader<'_>) -> (r: Result<Self, CodecError>)
        ensures
            match <Self::Model as Wire>::parse(old(reader)@.rest(), old(reader)@.order) {
                Ok((v, n)) => (r matches Ok(x) && x.model() == v)
                    && final(reader)@ == old(reader)@.forward(n),
                Err(e) => (r matches Err(f) && f == e) && final(reader)@ == old(reader)@,
            },
    ;
}

impl Codec for i32 {
    type Model = i32;

    open spec fn model(&self) -> i32 {
        *self
    }

    fn min_width() -> (w: u32) {
        4
    }

    fn encode_to(&self, writer: &mut Writer) -> (r: Result<(), CodecError>) {
        writer.write_i32(*self);
        Ok(())
    }

    fn decode_from(reader: &mut Reader<'_>) -> (r: Result<Self, CodecError>) {
        reader.read_i32()
    }
}

impl Codec for bool {
    type Model = bool;

    open spec fn model(&self) -> bool {
        *self
    }

    fn min_width() -> (w: u32) {
        1
    }

    fn encode_to(&self, writer: &mut Writer) -> (r: Result<(), CodecError>) {
        writer.write_bool(*self);
        Ok(())
    }

    fn decode_from(reader: &mut Reader<'_>) -> (r: Result<Self, CodecError>) {
        reader.read_bool()
    }
}

impl Codec for String {
    type Model = Seq<char>;

    open spec fn model(&self) -> Seq<char> {
        self@
    }

    fn min_width() -> (w: u32) {
        4
    }

    fn encode_to(&self, writer: &mut Writer) -> (r: Result<(), CodecError>) {
        writer.write_str(self.as_str())
    }

    fn decode_from(reader: &mut Reader<'_>) -> (r: Result<Self, CodecError>) {
        reader.read_string()
    }
}

impl<T: Codec> Codec for Vec<T> {
    type Model = Seq<T::Model>;

    open spec fn model(&self) -> Seq<T::Model> {
        Seq::new(self@.len(), |i: int| self@[i].model())
    }

    fn min_width() -> (w: u32) {
        4
    }

    fn encode_to(&self, writer: &mut Writer) -> (r: Result<(), CodecError>) {
        let ghost order = writer.order();
        let ghost model = self.model();
        let mark = writer.len();
        writer.write_count(self.len())?;
        let mut i: usize = 0;
        proof {
            reveal_with_fuel(items_wire, 2);
        }
        while i < self.len()
            invariant
                i <= self.len(),
                self.len() <= u32::MAX,
                model == self.model(),
                mark == old(writer)@.len(),
                writer.order() == order,
                order == old(writer).order(),
                forall|j: int| 0 <= j < i ==> (#[trigger] model[j]).encodable(),
                writer@ == old(writer)@ + word_bytes(self.len() as u32, order) + items_wire(
                    model.take(i as int),
                    order,
                ),
            decreases self.len() - i,
        {
            proof {
                reveal_with_fuel(items_wire, 2);
            }
            match self[i].encode_to(writer) {
                Ok(()) => {},
                Err(e) => {
                    writer.truncate(mark);
                    assert(!model[i as int].encodable());
                    assert(writer@ =~= old(writer)@);
                    return Err(e);
                },
            }
            proof {
                assert(model.take(i + 1).drop_last() =~= model.take(i as int));
                assert(writer@ =~= old(writer)@ + word_bytes(self.len() as u32, order)
                    + items_wire(model.take(i + 1), order));
            }
            i = i + 1;
        }
        proof {
            assert(model.take(i as int) =~= model);
            assert(writer@ =~= old(writer)@ + model.wire(order));
        }
        Ok(())
    }

    fn decode_from(reader: &mut Reader<'_>) -> (r: Result<Self, CodecError>) {
        let ghost order = reader@.order;
        let ghost input = reader@.rest();
        let mark = reader.position();
        let count = reader.read_count(T::min_width())?;
        let mut items: Vec<T> = Vec::new();
        let mut i: usize = 0;
        proof {
            reveal_with_fuel(items_parse, 2);
            assert(items.model() =~= Seq::<T::Model>::empty());
        }
        while i < count
            invariant
                i <= count,
                input == old(reader)@.rest(),
                input.len() >= 4,
                parse_count(input, order, <T::Model as Wire>::min_width()) == Ok::<
                    (nat, nat),
                    CodecError,
                >((count as nat, 4nat)),
                mark == old(reader)@.at,
                reader@.bytes == old(reader)@.bytes,
                reader@.order == order,
                order == old(reader)@.order,
                old(reader)@.at + 4 <= reader@.at <= reader@.bytes.len(),
                items_parse::<T::Model>(input.skip(4), i as nat, order) == Ok::<
                    (Seq<T::Model>, nat),
                    CodecError,
                >((items.model(), (reader@.at - old(reader)@.at - 4) as nat)),
            decreases count - i,
        {
            let ghost used = reader@.at - old(reader)@.at - 4;
            let ghost front = items.model();
            proof {
                reveal_with_fuel(items_parse, 2);
                assert(reader@.rest() =~= input.skip(4).skip(used));
                <T::Model as Wire>::lemma_parse_bounds(reader@.rest(), order);
            }
            match T::decode_from(reader) {
                Ok(item) => {
                    items.push(item);
                    assert(items.model() =~= front.push(item.model()));
                },
                Err(e) => {
                    proof {
                        assert(items_parse::<T::Model>(input.skip(4), (i + 1) as nat, order)
                            == Err::<(Seq<T::Model>, nat), CodecError>(e));
                        lemma_items_fault_stays::<T::Model>(
                            input.skip(4),
                            (i + 1) as nat,
                            count as nat,
                            order,
                        );
                    }
                    reader.rewind(mark);
                    return Err(e);
                },
            }
            i = i + 1;
        }
        Ok(items)
    }
}

/// The step from one field of a record to the next: when a value is read off
/// the front of what is left, what is left afterwards is the same bytes
/// without that value's, and the reader is still within its input.
pub proof fn lemma_read_step<A: Wire>(before: Cursor)
    requires
        before.at <= before.bytes.len(),
    ensures
        A::parse(before.rest(), before.order) matches Ok((v, n)) ==> before.at + n
            <= before.bytes.len() && before.forward(n).rest() == before.rest().skip(n as int),
{
    A::lemma_parse_bounds(before.rest(), before.order);
    if let Ok((v, n)) = A::parse(before.rest(), before.order) {
        before.lemma_forward_rest(n);
    }
}

/// Once an item cannot be read, asking for more items meets the same fault.
pub proof fn lemma_items_fault_stays<T: Wire>(
    bytes: Seq<u8>,
    count: nat,
    more: nat,
    order: Endian,
)
    requires
        count <= more,
        items_parse::<T>(bytes, count, order) is Err,
    ensures
        items_parse::<T>(bytes, more, order) == items_parse::<T>(bytes, count, order),
    decreases more,
{
    reveal_with_fuel(items_parse, 2);
    if count < more {
        lemma_items_fault_stays::<T>(bytes, count, (more - 1) as nat, order);
    }
}

/// The bytes of a whole message that holds the value `m`.
pub open spec fn encoded<M: Wire>(m: M, order: Endian) -> Seq<u8> {
    m.wire(order)
}

/// What a whole message is decoded to: the value at its front, or the first
/// fault met. Bytes behind the value are not looked at.
pub open spec fn decoded<M: Wire>(bytes: Seq<u8>, order: Endian) -> Result<M, CodecError> {
    match M::parse(bytes, order) {
        Ok((m, n)) => Ok(m),
        Err(e) => Err(e),
    }
}

/// Encodes a whole value in the given byte order into bytes of its own. A
/// value with a string or list too long for its 32-bit prefix is refused.
pub fn encode_with<T: Codec>(value: &T, order: Endian) -> (r: Result<Vec<u8>, CodecError>)
    ensures
        value.model().encodable() ==> (r matches Ok(bytes)
            && bytes@ == encoded(value.model(), order)),
        !value.model().encodable() ==> r == Err::<Vec<u8>, CodecError>(CodecError::InvalidLength),
{
    let mut writer = Writer::with_capacity(CAPACITY_HINT, order);
    match value.encode_to(&mut writer) {
        Ok(()) => {
            let bytes = writer.finish();
            assert(bytes@ =~= value.model().wire(order));
            Ok(bytes)
        },
        Err(e) => Err(e),
    }
}

/// Decodes a whole value from the front of `bytes` in the given byte order.
/// The value owns all its strings and lists. Bytes after the value are not
/// looked at.
pub fn decode_with<T: Codec>(bytes: &[u8], order: Endian) -> (r: Result<T, CodecError>)
    ensures
        match decoded::<T::Model>(bytes@, order) {
            Ok(m) => (r matches Ok(x) && x.model() == m),
            Err(e) => (r matches Err(f) && f == e),
        },
{
    let mut reader = Reader::new(bytes, order);
    assert(reader@.rest() =~= bytes@);
    T::decode_from(&mut reader)
}

/// Encodes a whole value in network byte order.
pub fn encode<T: Codec>(value: &T) -> (r: Result<Vec<u8>, CodecError>)
    ensures
        value.model().encodable() ==> (r matches Ok(bytes)
            && bytes@ == encoded(value.model(), DEFAULT_ORDER)),
        !value.model().encodable() ==> r == Err::<Vec<u8>, CodecError>(CodecError::InvalidLength),
{
    encode_with(value, DEFAULT_ORDER)
}

/// Decodes a whole value from the front of `bytes` in network byte order.
pub fn decode<T: Codec>(bytes: &[u8]) -> (r: Result<T, CodecError>)
    ensures
        match decoded::<T::Model>(bytes@, DEFAULT_ORDER) {
            Ok(m) => (r matches Ok(x) && x.model() == m),
            Err(e) => (r matches Err(f) && f == e),
        },
{
    decode_with(bytes, DEFAULT_ORDER)
}

} // verus!
