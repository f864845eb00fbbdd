use crate::bits::{lemma_bits_value_bound, lemma_bits_value_single};
use crate::cursor::BitCursor;
use crate::error::ErrorKind;
use crate::grammar::{length_descriptor, length_field};
use crate::protocols::bit_len_operator::BitLenOperator;
use crate::protocols::packet_num_operator::PacketNumOperator;
use crate::protocols::return_info::ParseReturnInfo;
use vstd::arithmetic::power2::{lemma2_to64, lemma_pow2_strictly_increases};
use vstd::prelude::*;

verus! {

/// How an operator packet bounds its children.
#[derive(Clone, Copy, Debug, PartialEq, Eq, Structural)]
pub enum LengthDescriptor {
    /// Flag 0: the children take this many bits in all.
    TotalBits(u16),
    /// Flag 1: there are this many children.
    PacketCount(u16),
}

impl LengthDescriptor {
    /// The bits that the descriptor itself takes, flag included.
    pub open spec fn width(self) -> nat {
        match self {
            LengthDescriptor::TotalBits(_) => 16,
            LengthDescriptor::PacketCount(_) => 12,
        }
    }

    /// The bits that the descriptor itself takes, flag included.
    pub fn header_len(self) -> (n: usize)
        ensures
            n == self.width(),
    {
        match self {
            LengthDescriptor::TotalBits(_) => 16,
            LengthDescriptor::PacketCount(_) => 12,
        }
    }

    /// Whether another child is due after the children that `so_far` sums
    /// up.
    pub fn more_due(self, so_far: &ParseReturnInfo) -> (due: bool)
        ensures
            due == crate::grammar::more_due(
                self,
                so_far.bits_read as nat,
                so_far.packets_read as nat,
            ),
    {
        match self {
            LengthDescriptor::TotalBits(n) => so_far.bits_read < n as usize,
            LengthDescriptor::PacketCount(k) => so_far.packets_read < k as usize,
        }
    }

    /// Reads the length descriptor at the cursor: the flag bit, then 15 bits
    /// of total length where it is 0, 11 bits of packet count where it is 1.
    pub fn read<'a>(rest: BitCursor<'a>) -> (r: Result<
        (BitCursor<'a>, LengthDescriptor),
        ErrorKind,
    >)
        requires
            rest.wf(),
        ensures
            match r {
                Ok((next, limit)) => {
                    &&& length_descriptor(rest.buffer@, rest.bit_offset as int) == Ok::<
                        LengthDescriptor,
                        ErrorKind,
                    >(limit)
                    &&& next.wf()
                    &&& next.buffer == rest.buffer
                    &&& next.bit_offset == rest.bit_offset + limit.width()
                },
                Err(e) => length_descriptor(rest.buffer@, rest.bit_offset as int) == Err::<
                    LengthDescriptor,
                    ErrorKind,
                >(e),
            },
    {
        let flag = rest.peek_bit()?;
        if flag {
            let (next, packets) = PacketNumOperator::read(rest)?;
            Ok((next, LengthDescriptor::PacketCount(packets)))
        } else {
            let (next, bits) = BitLenOperator::read(rest)?;
            Ok((next, LengthDescriptor::TotalBits(bits)))
        }
    }
}

/// Reads a flag bit and, behind it, a length of `length_size` bits. The flag
/// must be `required_length_type`: the two kinds of length descriptor have
/// fields of different widths, and a caller asks for one of them.
pub fn parse_operator_length<'a>(
    rest: BitCursor<'a>,
    required_length_type: bool,
    length_size: usize,
) -> (r: Result<(BitCursor<'a>, u16), ErrorKind>)
    requires
        rest.wf(),
        1 <= length_size <= 16,
    ensures
        match r {
            Ok((next, length)) => {
                &&& length_field(
                    rest.buffer@,
                    rest.bit_offset as int,
                    required_length_type,
                    length_size as nat,
                ) == Ok::<nat, ErrorKind>(length as nat)
                &&& next.wf()
                &&& next.buffer == rest.buffer
                &&& next.bit_offset == rest.bit_offset + 1 + length_size
            },
            Err(e) => length_field(
                rest.buffer@,
                rest.bit_offset as int,
                required_length_type,
                length_size as nat,
            ) == Err::<nat, ErrorKind>(e),
        },
{
    let (after_flag, flag) = match rest.read_bits(1) {
        Ok(read) => read,
        Err(e) => return Err(e),
    };
    proof {
        lemma_bits_value_single(rest.buffer@, rest.bit_offset as int);
    }
    if (flag == 1) != required_length_type {
        return Err(ErrorKind::InvalidLength);
    }
    let (next, length) = match after_flag.read_bits(length_size) {
        Ok(read) => read,
        Err(e) => return Err(e),
    };
    proof {
        lemma_bits_value_bound(rest.buffer@, rest.bit_offset + 1, length_size as nat);
        lemma2_to64();
        if length_size < 16 {
            lemma_pow2_strictly_increases(length_size as nat, 16);
        }
    }
    Ok((next, length as u16))
}

} // verus!
