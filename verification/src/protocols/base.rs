use crate::bits::{addressable, bits_value, lemma_bits_value_bound, total_bits};
use crate::cursor::BitCursor;
use crate::error::ErrorKind;
use crate::grammar::{decode_packet, is_packet_error, lemma_decode_packet_errors};
use crate::protocols::literal::parse_literal;
use crate::protocols::operator::parse_operator;
use crate::protocols::return_info::{agrees, ParseReturnInfo};
use vstd::arithmetic::power2::lemma2_to64;
use vstd::prelude::*;

verus! {

/// What a packet is, as its three-bit type id says.
#[derive(Clone, Copy, Debug, PartialEq, Eq, Structural)]
pub enum PacketType {
    /// Type id 4: the payload is a literal.
    Literal,
    /// Type id 0.
    Sum,
    /// Type id 1.
    Product,
    /// Type id 2.
    Minimum,
    /// Type id 3.
    Maximum,
    /// Type id 5.
    GreaterThan,
    /// Type id 6.
    LessThan,
    /// Type id 7.
    Equal,
}

impl PacketType {
    /// The packet type with the given id, if there is one.
    pub open spec fn spec_from_type_id(type_id: nat) -> Option<PacketType> {
        if type_id == 0 {
            Some(PacketType::Sum)
        } else if type_id == 1 {
            Some(PacketType::Product)
        } else if type_id == 2 {
            Some(PacketType::Minimum)
        } else if type_id == 3 {
            Some(PacketType::Maximum)
        } else if type_id == 4 {
            Some(PacketType::Literal)
        } else if type_id == 5 {
            Some(PacketType::GreaterThan)
        } else if type_id == 6 {
            Some(PacketType::LessThan)
        } else if type_id == 7 {
            Some(PacketType::Equal)
        } else {
            None
        }
    }

    /// The id that stands for this packet type in a header.
    pub open spec fn spec_type_id(self) -> nat {
        match self {
            PacketType::Sum => 0,
            PacketType::Product => 1,
            PacketType::Minimum => 2,
            PacketType::Maximum => 3,
            PacketType::Literal => 4,
            PacketType::GreaterThan => 5,
            PacketType::LessThan => 6,
            PacketType::Equal => 7,
        }
    }

    /// The packet type with the given id. Ids above 7 name none.
    pub fn from_type_id(type_id: u8) -> (r: Result<PacketType, ErrorKind>)
        ensures
            match r {
                Ok(t) => Self::spec_from_type_id(type_id as nat) == Some(t),
                Err(e) => e == ErrorKind::UnknownType && Self::spec_from_type_id(type_id as nat)
                    is None,
            },
    {
        match type_id {
            0 => Ok(PacketType::Sum),
            1 => Ok(PacketType::Product),
            2 => Ok(PacketType::Minimum),
            3 => Ok(PacketType::Maximum),
            4 => Ok(PacketType::Literal),
            5 => Ok(PacketType::GreaterThan),
            6 => Ok(PacketType::LessThan),
            7 => Ok(PacketType::Equal),
            _ => Err(ErrorKind::UnknownType),
        }
    }

    /// The id that stands for this packet type in a header.
    pub fn type_id(self) -> (id: u8)
        ensures
            id == self.spec_type_id(),
            Self::spec_from_type_id(id as nat) == Some(self),
    {
        match self {
            PacketType::Sum => 0,
            PacketType::Product => 1,
            PacketType::Minimum => 2,
            PacketType::Maximum => 3,
            PacketType::Literal => 4,
            PacketType::GreaterThan => 5,
            PacketType::LessThan => 6,
            PacketType::Equal => 7,
        }
    }
}

/// The six-bit header that every packet starts with.
#[derive(Clone, Copy, Debug, PartialEq, Eq, Structural)]
pub struct PacketBase {
    /// The three version bits. They do not bear on the packet's value.
    pub version: u8,
    /// The three type bits.
    pub packet_type: PacketType,
}

impl PacketBase {
    /// Decodes a header at `position`, a buffer and a bit offset into it,
    /// and gives the position behind it.
    pub fn from_bytes<'a>(position: (&'a [u8], usize)) -> (r: Result<
        ((&'a [u8], usize), PacketBase),
        ErrorKind,
    >)
        requires
            addressable(position.0@),
        ensures
            match r {
                Ok((next, base)) => {
                    &&& position.1 + 6 <= total_bits(position.0@)
                    &&& base.version == bits_value(position.0@, position.1 as int, 3)
                    &&& PacketType::spec_from_type_id(
                        bits_value(position.0@, position.1 + 3, 3),
                    ) == Some(base.packet_type)
                    &&& next.0 == position.0
                    &&& next.1 == position.1 + 6
                },
                Err(e) => e == ErrorKind::Truncated && position.1 + 6 > total_bits(position.0@),
            },
    {
        let start = BitCursor::from_position(position)?;
        let (rest, version) = start.read_bits(3)?;
        let (rest, type_id) = rest.read_bits(3)?;
        proof {
            lemma_bits_value_bound(position.0@, position.1 as int, 3);
            lemma_bits_value_bound(position.0@, position.1 + 3, 3);
            lemma2_to64();
        }
        let packet_type = PacketType::from_type_id(type_id as u8)?;
        Ok((rest.position(), PacketBase { version: version as u8, packet_type }))
    }
}

/// Decodes the packet at `position`, a buffer and a bit offset into it: the
/// header, then a literal or an operator's payload, as the type says. The
/// bits read are the header's six and the payload's; the value and the
/// packets read are the payload's.
pub fn parse_packet_from_base<'a>(position: (&'a [u8], usize)) -> (r: Result<
    ParseReturnInfo<'a>,
    ErrorKind,
>)
    requires
        addressable(position.0@),
    ensures
        agrees(r, position, decode_packet(position.0@, position.1 as int)),
        r matches Ok(info) ==> info.position.1 <= total_bits(position.0@) && info.bits_read >= 11
            && info.packets_read >= 1,
        r matches Err(e) ==> is_packet_error(e),
    decreases total_bits(position.0@) - position.1, 0nat,
{
    proof {
        lemma_decode_packet_errors(position.0@, position.1 as int);
    }
    let (position, base) = PacketBase::from_bytes(position)?;
    let return_info = match base.packet_type {
        PacketType::Literal => parse_literal(position)?,
        operator_code => parse_operator(operator_code, position)?,
    };
    Ok(return_info.add_bits(6))
}

} // verus!
