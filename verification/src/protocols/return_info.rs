use crate::grammar::Decoded;
use vstd::prelude::*;

verus! {

/// What decoding one packet, or one run of sibling packets, came to.
#[derive(Debug)]
pub struct ParseReturnInfo<'a> {
    /// The buffer, and the bit offset just behind what was decoded.
    pub position: (&'a [u8], usize),
    /// The number of bits consumed.
    pub bits_read: usize,
    /// The number of packets consumed at the top level of the run: 1 for a
    /// literal, the number of children for an operator.
    pub packets_read: usize,
    /// The value that the packets evaluate to.
    pub value: i128,
}

impl<'a> View for ParseReturnInfo<'a> {
    type V = Decoded;

    open spec fn view(&self) -> Decoded {
        Decoded {
            value: self.value as int,
            bits: self.bits_read as nat,
            packets: self.packets_read as nat,
        }
    }
}

impl<'a> ParseReturnInfo<'a> {
    /// The position lies `bits_read` bits behind `start`, in the same buffer.
    pub open spec fn continues_from(self, start: (&[u8], usize)) -> bool {
        &&& self.position.0@ == start.0@
        &&& self.position.1 == start.1 + self.bits_read
    }

    /// The same outcome with `bits` more bits counted as read. The position
    /// stays where it is: the bits are ones that the caller consumed itself.
    pub fn add_bits(self, bits: usize) -> (r: Self)
        requires
            self.bits_read + bits <= usize::MAX,
        ensures
            r.bits_read == self.bits_read + bits,
            r.position == self.position,
            r.packets_read == self.packets_read,
            r.value == self.value,
    {
        ParseReturnInfo {
            position: self.position,
            bits_read: self.bits_read + bits,
            packets_read: self.packets_read,
            value: self.value,
        }
    }
}

/// `result` is the outcome `expected` of a decode that began at `start`:
/// the same error, or the same value and counts with the position moved on
/// by the bits read.
pub open spec fn agrees<'a>(
    result: Result<ParseReturnInfo<'a>, crate::error::ErrorKind>,
    start: (&[u8], usize),
    expected: Result<Decoded, crate::error::ErrorKind>,
) -> bool {
    match result {
        Ok(info) => expected == Ok::<Decoded, crate::error::ErrorKind>(info@)
            && info.continues_from(start),
        Err(e) => expected == Err::<Decoded, crate::error::ErrorKind>(e),
    }
}

} // verus!
