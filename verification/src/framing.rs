//! A packet is its own bits: what lies in the buffer around them does not
//! bear on how it decodes.

use crate::bits::{bit_at, bits_value, total_bits};
use crate::grammar::{
    decode_children, decode_operator, decode_packet, lemma_decode_children_extent,
    lemma_decode_packet_extent, lemma_literal_groups_extent, length_descriptor, literal_groups,
    more_due, reduce,
};
use crate::protocols::base::PacketType;
use crate::protocols::operator_length_parser::LengthDescriptor;
use vstd::prelude::*;

verus! {

/// The two buffers hold the same bits from bit `from` up to, not including,
/// bit `to`.
pub open spec fn same_bits(a: Seq<u8>, b: Seq<u8>, from: int, to: int) -> bool {
    forall|i: int| from <= i < to ==> bit_at(a, i) == bit_at(b, i)
}

/// Runs of bits within a stretch where two buffers agree read as the same
/// number.
pub proof fn lemma_same_bits_value(
    a: Seq<u8>,
    b: Seq<u8>,
    from: int,
    to: int,
    start: int,
    n: nat,
)
    requires
        same_bits(a, b, from, to),
        from <= start,
        start + n <= to,
    ensures
        bits_value(a, start, n) == bits_value(b, start, n),
    decreases n,
{
    if n > 0 {
        lemma_same_bits_value(a, b, from, to, start, (n - 1) as nat);
        assert(bit_at(a, start + n - 1) == bit_at(b, start + n - 1));
    }
}

/// A literal's groups decode alike in any buffer that holds them.
pub proof fn lemma_literal_groups_frame(
    a: Seq<u8>,
    b: Seq<u8>,
    off: int,
    acc: nat,
    groups: nat,
)
    requires
        literal_groups(a, off, acc, groups) matches Some((_, last)) && same_bits(
            a,
            b,
            off,
            off + 5 * (last - groups),
        ) && off + 5 * (last - groups) <= total_bits(b),
    ensures
        literal_groups(b, off, acc, groups) == literal_groups(a, off, acc, groups),
    decreases total_bits(a) - off,
{
    let last = literal_groups(a, off, acc, groups).unwrap().1;
    lemma_literal_groups_extent(a, off, acc, groups);
    lemma_same_bits_value(a, b, off, off + 5 * (last - groups), off + 1, 4);
    assert(bit_at(a, off) == bit_at(b, off));
    if bit_at(a, off) {
        let next = 16 * acc + bits_value(a, off + 1, 4);
        lemma_literal_groups_extent(a, off + 5, next, groups + 1);
        lemma_literal_groups_frame(a, b, off + 5, next, groups + 1);
    }
}

/// A length descriptor decodes alike in any buffer that holds it.
proof fn lemma_length_descriptor_frame(a: Seq<u8>, b: Seq<u8>, off: int)
    requires
        length_descriptor(a, off) matches Ok(limit) && same_bits(a, b, off, off + limit.width())
            && off + limit.width() <= total_bits(b),
    ensures
        length_descriptor(b, off) == length_descriptor(a, off),
{
    let width = length_descriptor(a, off).unwrap().width();
    assert(bit_at(a, off) == bit_at(b, off));
    lemma_same_bits_value(a, b, off, off + width, off + 1, (width - 1) as nat);
}

/// A packet decodes alike in any buffer that holds its bits at the same
/// place: the bits before it and behind it do not matter.
pub proof fn lemma_decode_packet_frame(a: Seq<u8>, b: Seq<u8>, off: int)
    requires
        decode_packet(a, off) matches Ok(d) && same_bits(a, b, off, off + d.bits) && off + d.bits
            <= total_bits(b),
    ensures
        decode_packet(b, off) == decode_packet(a, off),
    decreases total_bits(a) - off, 0nat,
{
    let d = decode_packet(a, off).unwrap();
    lemma_decode_packet_extent(a, off);
    lemma_same_bits_value(a, b, off, off + d.bits, off + 3, 3);
    match PacketType::spec_from_type_id(bits_value(a, off + 3, 3)) {
        None => {},
        Some(PacketType::Literal) => {
            lemma_literal_groups_frame(a, b, off + 6, 0, 0);
        },
        Some(operator) => {
            lemma_decode_operator_frame(a, b, off + 6, operator);
        },
    }
}

/// An operator's payload decodes alike in any buffer that holds its bits at
/// the same place.
pub proof fn lemma_decode_operator_frame(a: Seq<u8>, b: Seq<u8>, off: int, operator: PacketType)
    requires
        decode_operator(a, off, operator) matches Ok(d) && same_bits(a, b, off, off + d.bits)
            && off + d.bits <= total_bits(b),
    ensures
        decode_operator(b, off, operator) == decode_operator(a, off, operator),
    decreases total_bits(a) - off, 0nat,
{
    let limit = length_descriptor(a, off).unwrap();
    lemma_decode_children_extent(a, off + limit.width(), operator, limit, 0, 0, 0);
    lemma_length_descriptor_frame(a, b, off);
    lemma_decode_children_frame(a, b, off + limit.width(), operator, limit, 0, 0, 0);
}

/// A run of children decodes alike in any buffer that holds its bits at the
/// same place.
pub proof fn lemma_decode_children_frame(
    a: Seq<u8>,
    b: Seq<u8>,
    off: int,
    operator: PacketType,
    limit: LengthDescriptor,
    packets: nat,
    bits: nat,
    acc: int,
)
    requires
        off <= total_bits(a),
        decode_children(a, off, operator, limit, packets, bits, acc) matches Ok(d) && same_bits(
            a,
            b,
            off,
            off + d.bits - bits,
        ) && off + d.bits - bits <= total_bits(b),
    ensures
        decode_children(b, off, operator, limit, packets, bits, acc) == decode_children(
            a,
            off,
            operator,
            limit,
            packets,
            bits,
            acc,
        ),
    decreases total_bits(a) - off, 1nat,
{
    if more_due(limit, bits, packets) {
        let child = decode_packet(a, off).unwrap();
        let next = reduce(operator, packets, acc, child.value).unwrap();
        lemma_decode_packet_extent(a, off);
        lemma_decode_children_extent(
            a,
            off + child.bits,
            operator,
            limit,
            packets + 1,
            bits + child.bits,
            next,
        );
        lemma_decode_packet_frame(a, b, off);
        lemma_decode_children_frame(
            a,
            b,
            off + child.bits,
            operator,
            limit,
            packets + 1,
            bits + child.bits,
            next,
        );
    }
}

/// Bytes behind a packet are padding: a packet that decodes in a buffer
/// decodes to the same in the buffer with any bytes added at its end.
pub proof fn lemma_padding_ignored(buf: Seq<u8>, padding: Seq<u8>, off: int)
    requires
        0 <= off,
        decode_packet(buf, off) is Ok,
    ensures
        decode_packet(buf + padding, off) == decode_packet(buf, off),
{
    let d = decode_packet(buf, off).unwrap();
    lemma_decode_packet_extent(buf, off);
    assert forall|i: int| off <= i < off + d.bits implies bit_at(buf, i) == bit_at(
        buf + padding,
        i,
    ) by {
        assert(0 <= i / 8 < buf.len());
        assert((buf + padding)[i / 8] == buf[i / 8]);
    }
    lemma_decode_packet_frame(buf, buf + padding, off);
}

} // verus!
