use crate::bits::addressable;
use crate::cursor::BitCursor;
use crate::error::ErrorKind;
use crate::grammar::length_field;
use crate::protocols::operator_length_parser::parse_operator_length;
use vstd::prelude::*;

verus! {

/// A length descriptor that bounds the children by their number: flag 1,
/// then 11 bits.
#[derive(Clone, Copy, Debug, PartialEq, Eq, Structural)]
pub struct PacketNumOperator {
    pub packets: u16,
}

impl PacketNumOperator {
    /// Reads the flag bit, which must be 1, and the 11 bits of the count.
    pub fn read<'a>(rest: BitCursor<'a>) -> (r: Result<(BitCursor<'a>, u16), ErrorKind>)
        requires
            rest.wf(),
        ensures
            match r {
                Ok((next, packets)) => {
                    &&& length_field(rest.buffer@, rest.bit_offset as int, true, 11) == Ok::<
                        nat,
                        ErrorKind,
                    >(packets as nat)
                    &&& next.wf()
                    &&& next.buffer == rest.buffer
                    &&& next.bit_offset == rest.bit_offset + 12
                },
                Err(e) => length_field(rest.buffer@, rest.bit_offset as int, true, 11) == Err::<
                    nat,
                    ErrorKind,
                >(e),
            },
    {
        parse_operator_length(rest, true, 11)
    }

    /// Decodes a descriptor of this kind at `position`, a buffer and a bit
    /// offset into it, and gives the position behind it.
    pub fn from_bytes<'a>(position: (&'a [u8], usize)) -> (r: Result<
        ((&'a [u8], usize), PacketNumOperator),
        ErrorKind,
    >)
        requires
            addressable(position.0@),
        ensures
            match r {
                Ok((next, descriptor)) => {
                    &&& length_field(position.0@, position.1 as int, true, 11) == Ok::<
                        nat,
                        ErrorKind,
                    >(descriptor.packets as nat)
                    &&& next.0 == position.0
                    &&& next.1 == position.1 + 12
                },
                Err(e) => length_field(position.0@, position.1 as int, true, 11) == Err::<
                    nat,
                    ErrorKind,
                >(e),
            },
    {
        let rest = BitCursor::from_position(position)?;
        let (next, packets) = PacketNumOperator::read(rest)?;
        Ok((next.position(), PacketNumOperator { packets }))
    }
}

} // verus!
