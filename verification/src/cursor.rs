//! A position in a byte buffer, counted in bits.

use crate::bits::{addressable, bit_at, bits_value, get_bit, load_bits, total_bits};
use crate::error::ErrorKind;
use vstd::prelude::*;

verus! {

/// A read position in a borrowed buffer. Reading never changes a cursor: it
/// hands back a new one, moved past what was read.
#[derive(Clone, Copy, Debug)]
pub struct BitCursor<'a> {
    pub buffer: &'a [u8],
    pub bit_offset: usize,
}

impl<'a> BitCursor<'a> {
    /// The cursor lies within its buffer, and the buffer is one this library
    /// reads.
    pub open spec fn wf(self) -> bool {
        &&& addressable(self.buffer@)
        &&& self.bit_offset <= total_bits(self.buffer@)
    }

    /// The number of bits from the cursor to the end of the buffer.
    pub open spec fn spec_remaining(self) -> int {
        total_bits(self.buffer@) - self.bit_offset
    }

    /// A cursor at the first bit of `buffer`.
    pub fn new(buffer: &'a [u8]) -> (cursor: Self)
        requires
            addressable(buffer@),
        ensures
            cursor.wf(),
            cursor.buffer == buffer,
            cursor.bit_offset == 0,
    {
        BitCursor { buffer, bit_offset: 0 }
    }

    /// The cursor that a pair of buffer and bit offset stands for. The offset
    /// may be the buffer's bit length, and no more.
    pub fn from_position(position: (&'a [u8], usize)) -> (r: Result<Self, ErrorKind>)
        requires
            addressable(position.0@),
        ensures
            match r {
                Ok(cursor) => cursor.wf() && cursor.buffer == position.0 && cursor.bit_offset
                    == position.1,
                Err(e) => e == ErrorKind::Truncated && position.1 > total_bits(position.0@),
            },
    {
        let len = position.0.len();
        assert(8 * len <= usize::MAX / 8);
        if position.1 <= 8 * len {
            Ok(BitCursor { buffer: position.0, bit_offset: position.1 })
        } else {
            Err(ErrorKind::Truncated)
        }
    }

    /// The cursor as a pair of buffer and bit offset.
    pub fn position(self) -> (position: (&'a [u8], usize))
        ensures
            position.0 == self.buffer,
            position.1 == self.bit_offset,
    {
        (self.buffer, self.bit_offset)
    }

    /// The number of bits left to read.
    pub fn remaining(self) -> (n: usize)
        requires
            self.wf(),
        ensures
            n == self.spec_remaining(),
    {
        8 * self.buffer.len() - self.bit_offset
    }

    /// The next bit, without moving.
    pub fn peek_bit(self) -> (r: Result<bool, ErrorKind>)
        requires
            self.wf(),
        ensures
            match r {
                Ok(bit) => self.spec_remaining() >= 1 && bit == bit_at(
                    self.buffer@,
                    self.bit_offset as int,
                ),
                Err(e) => e == ErrorKind::Truncated && self.spec_remaining() < 1,
            },
    {
        match get_bit(self.buffer, self.bit_offset) {
            Some(bit) => Ok(bit),
            None => Err(ErrorKind::Truncated),
        }
    }

    /// The next `n` bits as a big-endian unsigned integer, and the cursor
    /// moved past them.
    pub fn read_bits(self, n: usize) -> (r: Result<(Self, u128), ErrorKind>)
        requires
            self.wf(),
            1 <= n <= 128,
        ensures
            match r {
                Ok((next, value)) => {
                    &&& n <= self.spec_remaining()
                    &&& next.wf()
                    &&& next.buffer == self.buffer
                    &&& next.bit_offset == self.bit_offset + n
                    &&& value == bits_value(self.buffer@, self.bit_offset as int, n as nat)
                },
                Err(e) => e == ErrorKind::Truncated && n > self.spec_remaining(),
            },
    {
        let end = self.bit_offset + n;
        match load_bits(self.buffer, self.bit_offset, end) {
            Some(value) => Ok((BitCursor { buffer: self.buffer, bit_offset: end }, value)),
            None => Err(ErrorKind::Truncated),
        }
    }
}

} // verus!
