//! The reading side of a buffer: a cursor over borrowed bytes in one byte
//! order.

use vstd::prelude::*;
use vstd::slice::slice_subrange;
use vstd::string::StringSliceAdditionalSpecFns;
use vstd::utf8::{encode_utf8_decode_utf8, valid_utf8};
use crate::endian::{Endian, signed_of, word_at, word_value};
use crate::error::CodecError;
use crate::wire::Wire;

verus! {

/// The state of a reader: the bytes it was given, how many of them have been
/// read, and the byte order.
pub struct Cursor {
    /// All the bytes, read or not.
    pub bytes: Seq<u8>,
    /// The number of bytes already read.
    pub at: nat,
    /// The byte order of every multi-byte field.
    pub order: Endian,
}

impl Cursor {
    /// The bytes not read yet.
    pub open spec fn rest(self) -> Seq<u8> {
        self.bytes.skip(self.at as int)
    }

    /// The state after `n` more bytes have been read.
    pub open spec fn forward(self, n: nat) -> Cursor {
        Cursor { bytes: self.bytes, at: self.at + n, order: self.order }
    }

    /// What is left after `n` more bytes is what was left before without its
    /// first `n` bytes.
    pub proof fn lemma_forward_rest(self, n: nat)
        requires
            self.at + n <= self.bytes.len(),
        ensures
            self.forward(n).rest() == self.rest().skip(n as int),
    {
        assert(self.forward(n).rest() =~= self.rest().skip(n as int));
    }
}

/// The error that `core::str::from_utf8` reports; nothing is read from it.
#[verifier::external_type_specification]
#[verifier::external_body]
pub struct ExUtf8Error(core::str::Utf8Error);

/// `core::str::from_utf8` accepts exactly the byte runs that are valid
/// UTF-8, and the string it returns has the given bytes as its UTF-8 form.
pub assume_specification<'a>[ core::str::from_utf8 ](v: &'a [u8]) -> (r: Result<
    &'a str,
    core::str::Utf8Error,
>)
    ensures
        r is Ok <==> valid_utf8(v@),
        r matches Ok(s) ==> s.spec_bytes() == v@,
;

/// A cursor over borrowed bytes. Reads move it forward by exactly the width
/// of what was read and never past the end; a read that fails leaves it
/// where it was. The bytes themselves are never copied or changed.
pub struct Reader<'a> {
    data: &'a [u8],
    at: usize,
    order: Endian,
}

impl<'a> View for Reader<'a> {
    type V = Cursor;

    /// The cursor never stands behind the end of the bytes.
    closed spec fn view(&self) -> Cursor {
        Cursor {
            bytes: self.data@,
            at: if self.at <= self.data@.len() {
                self.at as nat
            } else {
                self.data@.len()
            },
            order: self.order,
        }
    }
}

impl<'a> Reader<'a> {
    #[verifier::type_invariant]
    spec fn in_bounds(self) -> bool {
        self.at <= self.data@.len()
    }

    /// A reader stands within its input.
    pub proof fn lemma_in_bounds(&self)
        ensures
            self@.at <= self@.bytes.len(),
    {
    }

    /// A reader at the start of `data`.
    pub fn new(data: &'a [u8], order: Endian) -> (r: Reader<'a>)
        ensures
            r@ == (Cursor { bytes: data@, at: 0, order }),
    {
        Reader { data, at: 0, order }
    }

    /// The byte order of the reader.
    pub fn byte_order(&self) -> (order: Endian)
        ensures
            order == self@.order,
    {
        self.order
    }

    /// The number of bytes already read.
    pub fn position(&self) -> (at: usize)
        ensures
            at == self@.at,
            at <= self@.bytes.len(),
    {
        proof {
            use_type_invariant(self);
        }
        self.at
    }

    /// The number of bytes not read yet.
    pub fn remaining(&self) -> (n: usize)
        ensures
            n == self@.rest().len(),
            n == self@.bytes.len() - self@.at,
    {
        proof {
            use_type_invariant(self);
        }
        self.data.len() - self.at
    }

    /// Moves the cursor back to an earlier position, to give up a record
    /// that was read in part. A position that is not behind the cursor
    /// changes nothing.
    pub fn rewind(&mut self, at: usize)
        ensures
            at <= old(self)@.at ==> final(self)@ == (Cursor {
                bytes: old(self)@.bytes,
                at: at as nat,
                order: old(self)@.order,
            }),
            at > old(self)@.at ==> final(self)@ == old(self)@,
    {
        proof {
            use_type_invariant(&*self);
        }
        if at <= self.at {
            self.at = at;
        }
    }

    /// Reads the next `n` bytes as they are. The slice borrows from the
    /// input; nothing is copied.
    pub fn read_bytes(&mut self, n: usize) -> (r: Result<&'a [u8], CodecError>)
        ensures
            n <= old(self)@.rest().len() ==> (r matches Ok(run)
                && run@ == old(self)@.rest().take(n as int)
                && final(self)@ == old(self)@.forward(n as nat)),
            n > old(self)@.rest().len() ==> r == Err::<&[u8], CodecError>(CodecError::TruncatedInput)
                && final(self)@ == old(self)@,
    {
        proof {
            use_type_invariant(&*self);
        }
        if n > self.data.len() - self.at {
            return Err(CodecError::TruncatedInput);
        }
        let run = slice_subrange(self.data, self.at, self.at + n);
        assert(run@ =~= old(self)@.rest().take(n as int));
        self.at = self.at + n;
        Ok(run)
    }

    /// Reads four bytes as an unsigned integer in the reader's byte order.
    pub fn read_u32(&mut self) -> (r: Result<u32, CodecError>)
        ensures
            old(self)@.rest().len() >= 4 ==> r == Ok::<u32, CodecError>(
                word_value(old(self)@.rest(), old(self)@.order),
            ) && final(self)@ == old(self)@.forward(4),
            old(self)@.rest().len() < 4 ==> r == Err::<u32, CodecError>(CodecError::TruncatedInput)
                && final(self)@ == old(self)@,
    {
        proof {
            use_type_invariant(&*self);
        }
        if self.data.len() - self.at < 4 {
            return Err(CodecError::TruncatedInput);
        }
        let v = word_at(self.data, self.at, self.order);
        self.at = self.at + 4;
        Ok(v)
    }

    /// Reads a signed 32-bit integer in two's complement.
    pub fn read_i32(&mut self) -> (r: Result<i32, CodecError>)
        ensures
            match i32::parse(old(self)@.rest(), old(self)@.order) {
                Ok((v, n)) => r == Ok::<i32, CodecError>(v) && final(self)@ == old(self)@.forward(n),
                Err(e) => r == Err::<i32, CodecError>(e) && final(self)@ == old(self)@,
            },
    {
        match self.read_u32() {
            Ok(u) => Ok(signed_of(u)),
            Err(e) => Err(e),
        }
    }

    /// Reads one byte as a boolean: zero is false, anything else is true.
    pub fn read_bool(&mut self) -> (r: Result<bool, CodecError>)
        ensures
            match bool::parse(old(self)@.rest(), old(self)@.order) {
                Ok((v, n)) => r == Ok::<bool, CodecError>(v)
                    && final(self)@ == old(self)@.forward(n),
                Err(e) => r == Err::<bool, CodecError>(e) && final(self)@ == old(self)@,
            },
    {
        proof {
            use_type_invariant(&*self);
        }
        if self.data.len() - self.at < 1 {
            return Err(CodecError::TruncatedInput);
        }
        let b = self.data[self.at];
        self.at = self.at + 1;
        Ok(b != 0)
    }

    /// Reads a string without copying it: a 32-bit length, then that many
    /// bytes of UTF-8. The string borrows from the input.
    pub fn read_str(&mut self) -> (r: Result<&'a str, CodecError>)
        ensures
            match Seq::<char>::parse(old(self)@.rest(), old(self)@.order) {
                Ok((v, n)) => (r matches Ok(s) && s@ == v) && final(self)@ == old(self)@.forward(n),
                Err(e) => (r matches Err(f) && f == e) && final(self)@ == old(self)@,
            },
    {
        proof {
            use_type_invariant(&*self);
        }
        let start = self.at;
        let len = self.read_u32()?;
        proof {
            use_type_invariant(&*self);
        }
        if len as usize > self.data.len() - self.at {
            self.at = start;
            return Err(CodecError::InvalidLength);
        }
        let run = slice_subrange(self.data, self.at, self.at + len as usize);
        assert(run@ =~= old(self)@.rest().subrange(4, 4 + len as int));
        match core::str::from_utf8(run) {
            Ok(s) => {
                proof {
                    encode_utf8_decode_utf8(s@);
                }
                self.at = self.at + len as usize;
                Ok(s)
            },
            Err(_) => {
                self.at = start;
                Err(CodecError::InvalidEncoding)
            },
        }
    }

    /// Reads a string: a 32-bit length, then that many bytes of UTF-8. The
    /// string is copied out, so it outlives the input.
    pub fn read_string(&mut self) -> (r: Result<String, CodecError>)
        ensures
            match Seq::<char>::parse(old(self)@.rest(), old(self)@.order) {
                Ok((v, n)) => (r matches Ok(s) && s@ == v) && final(self)@ == old(self)@.forward(n),
                Err(e) => (r matches Err(f) && f == e) && final(self)@ == old(self)@,
            },
    {
        match self.read_str() {
            Ok(s) => Ok(s.to_owned()),
            Err(e) => Err(e),
        }
    }

    /// Reads the count of a list whose items occupy at least `width` bytes
    /// each. A count that the remaining bytes cannot hold is refused before
    /// any item is read.
    pub fn read_count(&mut self, width: u32) -> (r: Result<usize, CodecError>)
        ensures
            match parse_count(old(self)@.rest(), old(self)@.order, width as nat) {
                Ok((v, n)) => r == Ok::<usize, CodecError>(v as usize) && v <= u32::MAX
                    && final(self)@ == old(self)@.forward(n),
                Err(e) => r == Err::<usize, CodecError>(e) && final(self)@ == old(self)@,
            },
    {
        proof {
            use_type_invariant(&*self);
        }
        let start = self.at;
        let count = self.read_u32()?;
        proof {
            use_type_invariant(&*self);
        }
        let room = (self.data.len() - self.at) as u64;
        assert(count * width <= 0xFFFF_FFFF * 0xFFFF_FFFF) by (nonlinear_arith)
            requires
                0 <= count <= 0xFFFF_FFFF,
                0 <= width <= 0xFFFF_FFFF,
        ;
        if count as u64 * width as u64 > room {
            self.at = start;
            return Err(CodecError::InvalidLength);
        }
        Ok(count as usize)
    }
}

/// What the front of `bytes` is read as when the count of a list is
/// expected whose items occupy at least `width` bytes each.
pub open spec fn parse_count(bytes: Seq<u8>, order: Endian, width: nat) -> Result<
    (nat, nat),
    CodecError,
> {
    if bytes.len() < 4 {
        Err(CodecError::TruncatedInput)
    } else {
        let count = word_value(bytes, order) as nat;
        if count * width > bytes.len() - 4 {
            Err(CodecError::InvalidLength)
        } else {
            Ok((count, 4))
        }
    }
}

} // verus!
