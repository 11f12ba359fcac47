//! A forward-only reader over an in-memory byte buffer.

use byteorder::{BigEndian, ByteOrder};
use vstd::prelude::*;
use vstd::slice::{slice_subrange, slice_to_vec};

use crate::error::DecodeError;

verus! {

/// The 16-bit value whose big-endian encoding is `hi` followed by `lo`.
pub open spec fn be16(hi: u8, lo: u8) -> u16 {
    (hi as int * 256 + lo as int) as u16
}

/// `byteorder::BigEndian::read_u16`: the 16-bit value stored big-endian in the first two
/// bytes of `buf`. Trusted; the call panics on a shorter buffer, which `requires` excludes.
#[verifier::external_body]
pub(crate) fn big_endian_u16(buf: &[u8]) -> (value: u16)
    requires
        buf@.len() >= 2,
    ensures
        value == be16(buf@[0], buf@[1]),
{
    BigEndian::read_u16(buf)
}

/// A position inside a fixed byte buffer. Reads advance the position and never move
/// it back; a read that cannot be served in full leaves the cursor untouched.
pub struct ByteCursor {
    data: Vec<u8>,
    pos: usize,
}

impl ByteCursor {
    #[verifier::type_invariant]
    spec fn in_bounds(&self) -> bool {
        self.pos <= self.data@.len()
    }

    /// Number of bytes consumed so far.
    pub closed spec fn offset(&self) -> nat {
        self.pos as nat
    }

    /// The bytes that have not been consumed yet.
    pub closed spec fn remaining(&self) -> Seq<u8> {
        self.data@.skip(self.pos as int)
    }

    /// A cursor at the start of `data`.
    pub fn new(data: Vec<u8>) -> (cursor: ByteCursor)
        ensures
            cursor.remaining() == data@,
            cursor.offset() == 0,
    {
        ByteCursor { data, pos: 0 }
    }

    /// Number of bytes consumed so far.
    pub fn position(&self) -> (pos: usize)
        ensures
            pos == self.offset(),
    {
        self.pos
    }

    /// Number of bytes left to read.
    pub fn remaining_len(&self) -> (len: usize)
        ensures
            len == self.remaining().len(),
    {
        proof {
            use_type_invariant(self);
        }
        self.data.len() - self.pos
    }

    /// Consumes one byte.
    pub fn read_u8(&mut self) -> (result: Result<u8, DecodeError>)
        ensures
            match result {
                Ok(byte) => {
                    &&& old(self).remaining().len() >= 1
                    &&& byte == old(self).remaining()[0]
                    &&& final(self).remaining() == old(self).remaining().skip(1)
                    &&& final(self).offset() == old(self).offset() + 1
                },
                Err(e) => {
                    &&& e == DecodeError::UnexpectedEof
                    &&& old(self).remaining().len() < 1
                    &&& *final(self) == *old(self)
                },
            },
    {
        proof {
            use_type_invariant(&*self);
        }
        if self.data.len() - self.pos < 1 {
            return Err(DecodeError::UnexpectedEof);
        }
        let byte = self.data[self.pos];
        self.pos = self.pos + 1;
        Ok(byte)
    }

    /// Consumes two bytes and returns them as a big-endian 16-bit value. With fewer
    /// than two bytes left, none is consumed.
    pub fn read_u16_be(&mut self) -> (result: Result<u16, DecodeError>)
        ensures
            match result {
                Ok(value) => {
                    &&& old(self).remaining().len() >= 2
                    &&& value == be16(old(self).remaining()[0], old(self).remaining()[1])
                    &&& final(self).remaining() == old(self).remaining().skip(2)
                    &&& final(self).offset() == old(self).offset() + 2
                },
                Err(e) => {
                    &&& e == DecodeError::UnexpectedEof
                    &&& old(self).remaining().len() < 2
                    &&& *final(self) == *old(self)
                },
            },
    {
        proof {
            use_type_invariant(&*self);
        }
        if self.data.len() - self.pos < 2 {
            return Err(DecodeError::UnexpectedEof);
        }
        let pair = slice_subrange(self.data.as_slice(), self.pos, self.pos + 2);
        let value = big_endian_u16(pair);
        self.pos = self.pos + 2;
        Ok(value)
    }

    /// Consumes exactly `n` bytes and returns them in order. With fewer than `n`
    /// bytes left, none is consumed.
    pub fn read_bytes(&mut self, n: usize) -> (result: Result<Vec<u8>, DecodeError>)
        ensures
            match result {
                Ok(bytes) => {
                    &&& old(self).remaining().len() >= n
                    &&& bytes@ == old(self).remaining().take(n as int)
                    &&& final(self).remaining() == old(self).remaining().skip(n as int)
                    &&& final(self).offset() == old(self).offset() + n
                },
                Err(e) => {
                    &&& e == DecodeError::UnexpectedEof
                    &&& old(self).remaining().len() < n
                    &&& *final(self) == *old(self)
                },
            },
    {
        proof {
            use_type_invariant(&*self);
        }
        if self.data.len() - self.pos < n {
            return Err(DecodeError::UnexpectedEof);
        }
        let chunk = slice_subrange(self.data.as_slice(), self.pos, self.pos + n);
        let bytes = slice_to_vec(chunk);
        self.pos = self.pos + n;
        Ok(bytes)
    }
}

} // verus!
