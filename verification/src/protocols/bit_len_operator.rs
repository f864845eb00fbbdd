use crate::bits::addressable;
use crate::cursor::BitCursor;
use crate::error::ErrorKind;
use crate::grammar::length_field;
use crate::protocols::operator_length_parser::parse_operator_length;
use vstd::prelude::*;

verus! {

/// A length descriptor that bounds the children by their total bit length:
/// flag 0, then 15 bits.
#[derive(Clone, Copy, Debug, PartialEq, Eq, Structural)]
pub struct BitLenOperator {
    pub bits: u16,
}

impl BitLenOperator {
    /// Reads the flag bit, which must be 0, and the 15 bits of the length.
    pub fn read<'a>(rest: BitCursor<'a>) -> (r: Result<(BitCursor<'a>, u16), ErrorKind>)
        requires
            rest.wf(),
        ensures
            match r {
                Ok((next, bits)) => {
                    &&& length_field(rest.buffer@, rest.bit_offset as int, false, 15) == Ok::<
                        nat,
                        ErrorKind,
                    >(bits as nat)
                    &&& next.wf()
                    &&& next.buffer == rest.buffer
                    &&& next.bit_offset == rest.bit_offset + 16
                },
                Err(e) => length_field(rest.buffer@, rest.bit_offset as int, false, 15) == Err::<
                    nat,
                    ErrorKind,
                >(e),
            },
    {
        parse_operator_length(rest, false, 15)
    }

    /// Decodes a descriptor of this kind at `position`, a buffer and a bit
    /// offset into it, and gives the position behind it.
    pub fn from_bytes<'a>(position: (&'a [u8], usize)) -> (r: Result<
        ((&'a [u8], usize), BitLenOperator),
        ErrorKind,
    >)
        requires
            addressable(position.0@),
        ensures
            match r {
                Ok((next, descriptor)) => {
                    &&& length_field(position.0@, position.1 as int, false, 15) == Ok::<
                        nat,
                        ErrorKind,
                    >(descriptor.bits as nat)
                    &&& next.0 == position.0
                    &&& next.1 == position.1 + 16
                },
                Err(e) => length_field(position.0@, position.1 as int, false, 15) == Err::<
                    nat,
                    ErrorKind,
                >(e),
            },
    {
        let rest = BitCursor::from_position(position)?;
        let (next, bits) = BitLenOperator::read(rest)?;
        Ok((next.position(), BitLenOperator { bits }))
    }
}

} // verus!
