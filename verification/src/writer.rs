//! The writing side of a buffer: an append-only run of bytes in one byte
//! order.

use vstd::prelude::*;
use crate::endian::{Endian, unsigned_of, word_bytes};
use crate::error::CodecError;
use crate::wire::Wire;

verus! {

/// An append-only buffer. It grows as needed; the capacity asked for at the
/// start only saves reallocations. `finish` consumes the writer, so a
/// finished writer cannot be written to again.
pub struct Writer {
    buf: Vec<u8>,
    order: Endian,
}

/// Whether `additional` more bytes after `len` are more than any buffer can
/// hold: a buffer never holds more than `isize::MAX` bytes.
pub open spec fn beyond_any_buffer(len: nat, additional: nat) -> bool {
    additional > 0 && len + additional > isize::MAX
}

/// What the answer to a request for room is turned into: success stays
/// success, and every refusal is an allocation failure.
pub fn reserved(answer: Result<(), std::collections::TryReserveError>) -> (r: Result<
    (),
    CodecError,
>)
    ensures
        answer is Ok ==> r == Ok::<(), CodecError>(()),
        answer is Err ==> r == Err::<(), CodecError>(CodecError::AllocationFailure),
{
    match answer {
        Ok(()) => Ok(()),
        Err(_) => Err(CodecError::AllocationFailure),
    }
}

impl View for Writer {
    type V = Seq<u8>;

    /// The bytes written so far.
    closed spec fn view(&self) -> Seq<u8> {
        self.buf@
    }
}

impl Writer {
    /// The byte order that the writer was made with.
    pub closed spec fn order(&self) -> Endian {
        self.order
    }

    /// An empty writer for the given byte order. `hint` is the number of
    /// bytes expected; room for them is reserved where it can be had, and a
    /// hint that is too small or too large changes nothing else.
    pub fn with_capacity(hint: usize, order: Endian) -> (w: Writer)
        ensures
            w@ == Seq::<u8>::empty(),
            w.order() == order,
    {
        let mut buf: Vec<u8> = Vec::new();
        let _ = buf.try_reserve(hint);
        Writer { buf, order }
    }

    /// Asks for room for `additional` more bytes, so that writing them does
    /// not have to grow the buffer. What was written stays as it is whether
    /// or not the room could be had. To ask for nothing always succeeds; to
    /// ask for more than any buffer can hold always fails; in between the
    /// allocator decides, and `reserved` says what its answer is turned
    /// into.
    pub fn reserve(&mut self, additional: usize) -> (r: Result<(), CodecError>)
        ensures
            final(self)@ == old(self)@,
            final(self).order() == old(self).order(),
            r.is_ok() || r == Err::<(), CodecError>(CodecError::AllocationFailure),
            additional == 0 ==> r.is_ok(),
            beyond_any_buffer(old(self)@.len(), additional as nat) ==> r == Err::<(), CodecError>(
                CodecError::AllocationFailure,
            ),
    {
        if additional == 0 {
            return Ok(());
        }
        let limit = isize::MAX as usize;
        let len = self.buf.len();
        if len > limit || additional > limit - len {
            return Err(CodecError::AllocationFailure);
        }
        reserved(self.buf.try_reserve(additional))
    }

    /// The byte order of the writer.
    pub fn byte_order(&self) -> (order: Endian)
        ensures
            order == self.order(),
    {
        self.order
    }

    /// The number of bytes written so far.
    pub fn len(&self) -> (n: usize)
        ensures
            n == self@.len(),
    {
        self.buf.len()
    }

    /// Whether nothing has been written yet.
    pub fn is_empty(&self) -> (r: bool)
        ensures
            r == (self@.len() == 0),
    {
        self.buf.len() == 0
    }

    /// Appends one byte.
    pub fn write_u8(&mut self, v: u8)
        ensures
            final(self)@ == old(self)@.push(v),
            final(self).order() == old(self).order(),
    {
        self.buf.push(v);
    }

    /// Appends the four bytes of `v` in the writer's byte order.
    pub fn write_u32(&mut self, v: u32)
        ensures
            final(self)@ == old(self)@ + word_bytes(v, old(self).order()),
            final(self).order() == old(self).order(),
    {
        let b0: u8 = (v % 0x100) as u8;
        let b1: u8 = (v / 0x100 % 0x100) as u8;
        let b2: u8 = (v / 0x1_0000 % 0x100) as u8;
        let b3: u8 = (v / 0x100_0000 % 0x100) as u8;
        match self.order {
            Endian::Big => {
                self.buf.push(b3);
                self.buf.push(b2);
                self.buf.push(b1);
                self.buf.push(b0);
            },
            Endian::Little => {
                self.buf.push(b0);
                self.buf.push(b1);
                self.buf.push(b2);
                self.buf.push(b3);
            },
        }
        proof {
            reveal(word_bytes);
        }
        assert(self.buf@ =~= old(self).buf@ + word_bytes(v, old(self).order()));
    }

    /// Appends a signed 32-bit integer in two's complement.
    pub fn write_i32(&mut self, v: i32)
        ensures
            final(self)@ == old(self)@ + v.wire(old(self).order()),
            final(self).order() == old(self).order(),
    {
        self.write_u32(unsigned_of(v));
    }

    /// Appends a boolean as one byte, 1 for true and 0 for false.
    pub fn write_bool(&mut self, v: bool)
        ensures
            final(self)@ == old(self)@ + v.wire(old(self).order()),
            final(self).order() == old(self).order(),
    {
        if v {
            self.buf.push(1u8);
        } else {
            self.buf.push(0u8);
        }
        assert(self.buf@ =~= old(self).buf@ + v.wire(old(self).order()));
    }

    /// Appends a run of bytes as it is, with nothing before it.
    pub fn write_bytes(&mut self, bytes: &[u8])
        ensures
            final(self)@ == old(self)@ + bytes@,
            final(self).order() == old(self).order(),
    {
        self.buf.extend_from_slice(bytes);
        assert(self.buf@ =~= old(self).buf@ + bytes@);
    }

    /// Appends a string: the length of its UTF-8 form as a 32-bit prefix,
    /// then the form itself. A string longer than the prefix can say is
    /// refused and nothing is written.
    pub fn write_str(&mut self, s: &str) -> (r: Result<(), CodecError>)
        ensures
            final(self).order() == old(self).order(),
            s@.encodable() ==> r.is_ok()
                && final(self)@ == old(self)@ + s@.wire(old(self).order()),
            !s@.encodable() ==> r == Err::<(), CodecError>(CodecError::InvalidLength)
                && final(self)@ == old(self)@,
    {
        let bytes = s.as_bytes();
        if bytes.len() > u32::MAX as usize {
            return Err(CodecError::InvalidLength);
        }
        self.write_u32(bytes.len() as u32);
        self.write_bytes(bytes);
        assert(self.buf@ =~= old(self).buf@ + s@.wire(old(self).order()));
        Ok(())
    }

    /// Appends the count of a list of `len` items as a 32-bit prefix. A
    /// count that the prefix cannot say is refused and nothing is written.
    pub fn write_count(&mut self, len: usize) -> (r: Result<(), CodecError>)
        ensures
            final(self).order() == old(self).order(),
            len <= u32::MAX ==> r.is_ok()
                && final(self)@ == old(self)@ + word_bytes(len as u32, old(self).order()),
            len > u32::MAX ==> r == Err::<(), CodecError>(CodecError::InvalidLength)
                && final(self)@ == old(self)@,
    {
        if len > u32::MAX as usize {
            return Err(CodecError::InvalidLength);
        }
        self.write_u32(len as u32);
        Ok(())
    }

    /// Drops what was written after the first `len` bytes, to give up a
    /// record that was written in part. With `len` beyond the end nothing
    /// changes.
    pub fn truncate(&mut self, len: usize)
        ensures
            final(self).order() == old(self).order(),
            len <= old(self)@.len() ==> final(self)@ == old(self)@.take(len as int),
            len > old(self)@.len() ==> final(self)@ == old(self)@,
    {
        self.buf.truncate(len);
    }

    /// Ends the writing and hands out the bytes written.
    pub fn finish(self) -> (bytes: Vec<u8>)
        ensures
            bytes@ == self@,
    {
        self.buf
    }
}

} // verus!
