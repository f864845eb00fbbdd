//! What the bits of a buffer mean as packets.
//!
//! Every function here is a specification: the decoders are proved to
//! compute exactly these.

use crate::bits::{bit_at, bits_value, lemma_bits_value_bound, total_bits};
use crate::error::ErrorKind;
use crate::protocols::base::PacketType;
use crate::protocols::operator_length_parser::LengthDescriptor;
use vstd::arithmetic::power2::lemma2_to64;
use vstd::prelude::*;

verus! {

/// The outcome of decoding, as numbers: the value, the bits consumed, and
/// the packets consumed at the top level.
pub struct Decoded {
    pub value: int,
    pub bits: nat,
    pub packets: nat,
}

/// The literal whose groups start at bit `off`, as its value and the number
/// of its groups, or `None` where the buffer ends within a group. A group is
/// a flag bit and a nibble; the flag is 0 in the last group; the first
/// nibble is the most significant. `acc` and `groups` are what the groups
/// before `off` have come to.
pub open spec fn literal_groups(buf: Seq<u8>, off: int, acc: nat, groups: nat) -> Option<
    (nat, nat),
>
    decreases total_bits(buf) - off,
{
    if off + 5 > total_bits(buf) {
        None
    } else {
        let acc = 16 * acc + bits_value(buf, off + 1, 4);
        if bit_at(buf, off) {
            literal_groups(buf, off + 5, acc, groups + 1)
        } else {
            Some((acc, groups + 1))
        }
    }
}

/// The number that a 128-bit pattern stands for when read as a signed
/// integer in two's complement, for the low 128 bits of `v`.
pub open spec fn signed_128(v: nat) -> int {
    let low = v as int % (u128::MAX + 1);
    if low <= i128::MAX {
        low
    } else {
        low - (u128::MAX + 1)
    }
}

/// A literal packet's payload at bit `off`: the groups' value, kept to 128
/// bits and read as signed, over five bits a group.
pub open spec fn decode_literal(buf: Seq<u8>, off: int) -> Result<Decoded, ErrorKind> {
    match literal_groups(buf, off, 0, 0) {
        Some((value, groups)) => Ok(
            Decoded { value: signed_128(value), bits: 5 * groups, packets: 1 },
        ),
        None => Err(ErrorKind::Truncated),
    }
}

/// The length field of `size` bits behind a flag bit at `off`, where the
/// flag must be `required`.
pub open spec fn length_field(buf: Seq<u8>, off: int, required: bool, size: nat) -> Result<
    nat,
    ErrorKind,
> {
    if off + 1 > total_bits(buf) {
        Err(ErrorKind::Truncated)
    } else if bit_at(buf, off) != required {
        Err(ErrorKind::InvalidLength)
    } else if off + 1 + size > total_bits(buf) {
        Err(ErrorKind::Truncated)
    } else {
        Ok(bits_value(buf, off + 1, size))
    }
}

/// The length descriptor at bit `off`: flag 0 and 15 bits for the total bit
/// length of the children, flag 1 and 11 bits for their number.
pub open spec fn length_descriptor(buf: Seq<u8>, off: int) -> Result<LengthDescriptor, ErrorKind> {
    if off + 1 > total_bits(buf) {
        Err(ErrorKind::Truncated)
    } else if !bit_at(buf, off) {
        if off + 16 > total_bits(buf) {
            Err(ErrorKind::Truncated)
        } else {
            Ok(LengthDescriptor::TotalBits(bits_value(buf, off + 1, 15) as u16))
        }
    } else {
        if off + 12 > total_bits(buf) {
            Err(ErrorKind::Truncated)
        } else {
            Ok(LengthDescriptor::PacketCount(bits_value(buf, off + 1, 11) as u16))
        }
    }
}

/// Whether another child is due after `packets` children of `bits` bits in
/// all.
pub open spec fn more_due(limit: LengthDescriptor, bits: nat, packets: nat) -> bool {
    match limit {
        LengthDescriptor::TotalBits(n) => bits < n,
        LengthDescriptor::PacketCount(k) => packets < k,
    }
}

/// Whether `operator` is defined for `count` children: a comparison for
/// exactly two, the others for one or more.
pub open spec fn arity_ok(operator: PacketType, count: nat) -> bool {
    match operator {
        PacketType::Literal => false,
        PacketType::Sum | PacketType::Product | PacketType::Minimum | PacketType::Maximum => count
            >= 1,
        PacketType::GreaterThan | PacketType::LessThan | PacketType::Equal => count == 2,
    }
}

/// `v`, where an `i128` holds it.
pub open spec fn checked(v: int) -> Result<int, ErrorKind> {
    if i128::MIN <= v <= i128::MAX {
        Ok(v)
    } else {
        Err(ErrorKind::Overflow)
    }
}

/// The running value after one more child: `acc` is what `count` children
/// before it came to, `child` is its value. The first child starts the run.
pub open spec fn reduce(operator: PacketType, count: nat, acc: int, child: int) -> Result<
    int,
    ErrorKind,
> {
    match operator {
        PacketType::Literal => Err(ErrorKind::UnknownType),
        PacketType::Sum => if count == 0 {
            Ok(child)
        } else {
            checked(acc + child)
        },
        PacketType::Product => if count == 0 {
            Ok(child)
        } else {
            checked(acc * child)
        },
        PacketType::Minimum => if count == 0 || child < acc {
            Ok(child)
        } else {
            Ok(acc)
        },
        PacketType::Maximum => if count == 0 || child > acc {
            Ok(child)
        } else {
            Ok(acc)
        },
        PacketType::GreaterThan => if count == 0 {
            Ok(child)
        } else if count == 1 {
            Ok(if acc > child { 1int } else { 0int })
        } else {
            Err(ErrorKind::MalformedArity)
        },
        PacketType::LessThan => if count == 0 {
            Ok(child)
        } else if count == 1 {
            Ok(if acc < child { 1int } else { 0int })
        } else {
            Err(ErrorKind::MalformedArity)
        },
        PacketType::Equal => if count == 0 {
            Ok(child)
        } else if count == 1 {
            Ok(if acc == child { 1int } else { 0int })
        } else {
            Err(ErrorKind::MalformedArity)
        },
    }
}

/// `inner` with `bits` more bits counted: how a header or a length
/// descriptor adds its own width to what follows it.
pub open spec fn with_bits(inner: Result<Decoded, ErrorKind>, bits: nat) -> Result<
    Decoded,
    ErrorKind,
> {
    match inner {
        Ok(d) => Ok(Decoded { value: d.value, bits: d.bits + bits, packets: d.packets }),
        Err(e) => Err(e),
    }
}

/// The packet whose header starts at bit `off`: three version bits, three
/// type bits, then a literal for type 4 and an operator's payload for any
/// other type.
pub open spec fn decode_packet(buf: Seq<u8>, off: int) -> Result<Decoded, ErrorKind>
    decreases total_bits(buf) - off, 0nat,
{
    if off + 6 > total_bits(buf) {
        Err(ErrorKind::Truncated)
    } else {
        match PacketType::spec_from_type_id(bits_value(buf, off + 3, 3)) {
            None => Err(ErrorKind::UnknownType),
            Some(PacketType::Literal) => with_bits(decode_literal(buf, off + 6), 6),
            Some(operator) => with_bits(decode_operator(buf, off + 6, operator), 6),
        }
    }
}

/// An operator packet's payload at bit `off`: the length descriptor, then
/// the children that it bounds, reduced by `operator`.
pub open spec fn decode_operator(buf: Seq<u8>, off: int, operator: PacketType) -> Result<
    Decoded,
    ErrorKind,
>
    decreases total_bits(buf) - off, 0nat,
{
    if operator is Literal {
        Err(ErrorKind::UnknownType)
    } else {
        match length_descriptor(buf, off) {
            Err(e) => Err(e),
            Ok(limit) => with_bits(
                decode_children(buf, off + limit.width(), operator, limit, 0, 0, 0),
                limit.width(),
            ),
        }
    }
}

/// The children from bit `off` on, after `packets` children of `bits` bits
/// in all that came to `acc`. Children are decoded while `limit` says that
/// another is due, each folded into the running value as soon as it is
/// decoded; the first failure ends the run. At the end the number of
/// children must be one that `operator` is defined for.
///
/// Every child takes bits and ends within the buffer
/// (`lemma_decode_packet_extent`), so the branch that asks for this is never
/// the one that fails: it is what shows that the run comes to an end.
pub open spec fn decode_children(
    buf: Seq<u8>,
    off: int,
    operator: PacketType,
    limit: LengthDescriptor,
    packets: nat,
    bits: nat,
    acc: int,
) -> Result<Decoded, ErrorKind>
    decreases total_bits(buf) - off, 1nat,
{
    if !more_due(limit, bits, packets) {
        if arity_ok(operator, packets) {
            Ok(Decoded { value: acc, bits, packets })
        } else {
            Err(ErrorKind::MalformedArity)
        }
    } else {
        match decode_packet(buf, off) {
            Err(e) => Err(e),
            Ok(child) => match reduce(operator, packets, acc, child.value) {
                Err(e) => Err(e),
                Ok(acc) => if child.bits == 0 || off + child.bits > total_bits(buf) {
                    Err(ErrorKind::Truncated)
                } else {
                    decode_children(
                        buf,
                        off + child.bits,
                        operator,
                        limit,
                        packets + 1,
                        bits + child.bits,
                        acc,
                    )
                },
            },
        }
    }
}

/// A literal has at least one group, and its groups lie within the buffer.
pub proof fn lemma_literal_groups_extent(buf: Seq<u8>, off: int, acc: nat, groups: nat)
    ensures
        literal_groups(buf, off, acc, groups) matches Some((_, last)) ==> last > groups && off + 5
            * (last - groups) <= total_bits(buf),
    decreases total_bits(buf) - off,
{
    if off + 5 <= total_bits(buf) && bit_at(buf, off) {
        lemma_literal_groups_extent(
            buf,
            off + 5,
            16 * acc + bits_value(buf, off + 1, 4),
            groups + 1,
        );
    }
}

/// A packet that decodes lies within the buffer: the bits it takes end at or
/// before the buffer's last bit. It takes at least eleven bits, a header and
/// one group, and counts at least one packet.
pub proof fn lemma_decode_packet_extent(buf: Seq<u8>, off: int)
    ensures
        decode_packet(buf, off) matches Ok(d) ==> off + d.bits <= total_bits(buf) && d.bits >= 11
            && d.packets >= 1,
    decreases total_bits(buf) - off, 0nat,
{
    if off + 6 <= total_bits(buf) {
        match PacketType::spec_from_type_id(bits_value(buf, off + 3, 3)) {
            None => {},
            Some(PacketType::Literal) => {
                lemma_literal_groups_extent(buf, off + 6, 0, 0);
            },
            Some(operator) => {
                lemma_decode_operator_extent(buf, off + 6, operator);
            },
        }
    }
}

/// An operator's payload that decodes lies within the buffer, and has a
/// number of children that the operator is defined for.
pub proof fn lemma_decode_operator_extent(buf: Seq<u8>, off: int, operator: PacketType)
    ensures
        decode_operator(buf, off, operator) matches Ok(d) ==> off + d.bits <= total_bits(buf)
            && d.bits >= 12 && arity_ok(operator, d.packets),
    decreases total_bits(buf) - off, 0nat,
{
    if !(operator is Literal) {
        match length_descriptor(buf, off) {
            Err(_) => {},
            Ok(limit) => {
                lemma_decode_children_extent(buf, off + limit.width(), operator, limit, 0, 0, 0);
            },
        }
    }
}

/// A run of children that decodes lies within the buffer and ends when the
/// limit is met, with a number of children that the operator is defined
/// for: under a packet count, exactly that many.
pub proof fn lemma_decode_children_extent(
    buf: Seq<u8>,
    off: int,
    operator: PacketType,
    limit: LengthDescriptor,
    packets: nat,
    bits: nat,
    acc: int,
)
    requires
        off <= total_bits(buf),
    ensures
        decode_children(buf, off, operator, limit, packets, bits, acc) matches Ok(d) ==> {
            &&& d.bits >= bits
            &&& d.packets >= packets
            &&& off + (d.bits - bits) <= total_bits(buf)
            &&& arity_ok(operator, d.packets)
            &&& !more_due(limit, d.bits, d.packets)
            &&& limit matches LengthDescriptor::PacketCount(k) ==> packets <= k ==> d.packets == k
        },
    decreases total_bits(buf) - off, 1nat,
{
    if more_due(limit, bits, packets) {
        lemma_decode_packet_extent(buf, off);
        match decode_packet(buf, off) {
            Err(_) => {},
            Ok(child) => match reduce(operator, packets, acc, child.value) {
                Err(_) => {},
                Ok(acc) => {
                    lemma_decode_children_extent(
                        buf,
                        off + child.bits,
                        operator,
                        limit,
                        packets + 1,
                        bits + child.bits,
                        acc,
                    );
                },
            },
        }
    }
}

/// A comparison decodes only with exactly two children: where the length
/// descriptor bounds any other number of them, the decode fails.
pub proof fn lemma_comparison_takes_two(buf: Seq<u8>, off: int, operator: PacketType)
    requires
        operator is GreaterThan || operator is LessThan || operator is Equal,
    ensures
        decode_operator(buf, off, operator) matches Ok(d) ==> d.packets == 2 && (d.value == 0
            || d.value == 1),
        length_descriptor(buf, off) matches Ok(LengthDescriptor::PacketCount(k)) ==> k != 2
            ==> decode_operator(buf, off, operator) is Err,
{
    lemma_decode_operator_extent(buf, off, operator);
    match length_descriptor(buf, off) {
        Err(_) => {},
        Ok(limit) => {
            lemma_decode_children_extent(buf, off + limit.width(), operator, limit, 0, 0, 0);
            lemma_comparison_value(buf, off + limit.width(), operator, limit, 0, 0, 0);
        },
    }
}

/// The value of a comparison over two children is 0 or 1.
proof fn lemma_comparison_value(
    buf: Seq<u8>,
    off: int,
    operator: PacketType,
    limit: LengthDescriptor,
    packets: nat,
    bits: nat,
    acc: int,
)
    requires
        operator is GreaterThan || operator is LessThan || operator is Equal,
        packets >= 2 ==> acc == 0 || acc == 1,
    ensures
        decode_children(buf, off, operator, limit, packets, bits, acc) matches Ok(d) ==> d.value
            == 0 || d.value == 1,
    decreases total_bits(buf) - off,
{
    if more_due(limit, bits, packets) {
        match decode_packet(buf, off) {
            Err(_) => {},
            Ok(child) => match reduce(operator, packets, acc, child.value) {
                Err(_) => {},
                Ok(acc) => {
                    if !(child.bits == 0 || off + child.bits > total_bits(buf)) {
                        lemma_comparison_value(
                            buf,
                            off + child.bits,
                            operator,
                            limit,
                            packets + 1,
                            bits + child.bits,
                            acc,
                        );
                    }
                },
            },
        }
    }
}

/// Every three-bit number names a packet type.
pub proof fn lemma_type_id_known(buf: Seq<u8>, off: int)
    ensures
        PacketType::spec_from_type_id(bits_value(buf, off, 3)) is Some,
{
    lemma_bits_value_bound(buf, off, 3);
    lemma2_to64();
}

/// The errors of children are the errors of packets, and a wrong number of
/// children.
pub open spec fn is_packet_error(e: ErrorKind) -> bool {
    e is Truncated || e is Overflow || e is MalformedArity
}

/// A packet fails to decode for one of three reasons: the buffer ends too
/// soon, a sum or product overflows, or an operator has a number of
/// children that it is not defined for.
pub proof fn lemma_decode_packet_errors(buf: Seq<u8>, off: int)
    ensures
        decode_packet(buf, off) matches Err(e) ==> is_packet_error(e),
    decreases total_bits(buf) - off, 0nat,
{
    if off + 6 <= total_bits(buf) {
        lemma_type_id_known(buf, off + 3);
        match PacketType::spec_from_type_id(bits_value(buf, off + 3, 3)) {
            None => {},
            Some(PacketType::Literal) => {},
            Some(operator) => {
                lemma_decode_operator_errors(buf, off + 6, operator);
            },
        }
    }
}

/// An operator's payload fails to decode for the reasons that a packet
/// does.
pub proof fn lemma_decode_operator_errors(buf: Seq<u8>, off: int, operator: PacketType)
    requires
        !(operator is Literal),
    ensures
        decode_operator(buf, off, operator) matches Err(e) ==> is_packet_error(e),
    decreases total_bits(buf) - off, 0nat,
{
    match length_descriptor(buf, off) {
        Err(_) => {},
        Ok(limit) => {
            lemma_decode_children_errors(buf, off + limit.width(), operator, limit, 0, 0, 0);
        },
    }
}

/// A run of children fails to decode for the reasons that a packet does.
pub proof fn lemma_decode_children_errors(
    buf: Seq<u8>,
    off: int,
    operator: PacketType,
    limit: LengthDescriptor,
    packets: nat,
    bits: nat,
    acc: int,
)
    requires
        !(operator is Literal),
        off <= total_bits(buf),
    ensures
        decode_children(buf, off, operator, limit, packets, bits, acc) matches Err(e)
            ==> is_packet_error(e),
    decreases total_bits(buf) - off, 1nat,
{
    if more_due(limit, bits, packets) {
        lemma_decode_packet_errors(buf, off);
        lemma_decode_packet_extent(buf, off);
        match decode_packet(buf, off) {
            Err(_) => {},
            Ok(child) => match reduce(operator, packets, acc, child.value) {
                Err(_) => {},
                Ok(acc) => {
                    lemma_decode_children_errors(
                        buf,
                        off + child.bits,
                        operator,
                        limit,
                        packets + 1,
                        bits + child.bits,
                        acc,
                    );
                },
            },
        }
    }
}

} // verus!
