use crate::bits::{addressable, lemma_bits_value_bound, lemma_bits_value_single, total_bits};
use crate::cursor::BitCursor;
use crate::error::ErrorKind;
use crate::grammar::{decode_literal, literal_groups};
use crate::protocols::return_info::{agrees, ParseReturnInfo};
use vstd::arithmetic::div_mod::{
    lemma_fundamental_div_mod, lemma_fundamental_div_mod_converse, lemma_mod_bound,
};
use vstd::arithmetic::power2::lemma2_to64;
use vstd::prelude::*;

verus! {

/// A literal's payload: its value, kept to 128 bits, and the number of bits
/// that its groups take.
#[derive(Clone, Copy, Debug, PartialEq, Eq)]
pub struct Literal {
    pub content: (u128, usize),
}

impl Literal {
    /// Reads the groups of a literal: a flag bit and a nibble each, the flag
    /// 0 in the last. Each group shifts the running value left by four bits
    /// and puts its nibble below; bits shifted out at the top are lost.
    pub fn read<'a>(rest: BitCursor<'a>) -> (r: Result<(BitCursor<'a>, (u128, usize)), ErrorKind>)
        requires
            rest.wf(),
        ensures
            match r {
                Ok((next, content)) => {
                    &&& literal_groups(rest.buffer@, rest.bit_offset as int, 0, 0) matches Some(
                        (value, groups),
                    )
                    &&& content.0 == value % (u128::MAX + 1) as nat
                    &&& content.1 == 5 * groups
                    &&& content.1 >= 5
                    &&& next.wf()
                    &&& next.buffer == rest.buffer
                    &&& next.bit_offset == rest.bit_offset + content.1
                },
                Err(e) => e == ErrorKind::Truncated && literal_groups(
                    rest.buffer@,
                    rest.bit_offset as int,
                    0,
                    0,
                ) is None,
            },
    {
        let mut result: u128 = 0;
        let mut index: usize = 0;
        let mut cursor = rest;
        let ghost mut acc: nat = 0;
        let ghost mut groups: nat = 0;
        loop
            invariant
                cursor.wf(),
                cursor.buffer == rest.buffer,
                cursor.bit_offset == rest.bit_offset + index,
                index == 5 * groups,
                result == acc % (u128::MAX + 1) as nat,
                literal_groups(rest.buffer@, rest.bit_offset as int, 0, 0) == literal_groups(
                    rest.buffer@,
                    cursor.bit_offset as int,
                    acc,
                    groups,
                ),
            decreases cursor.spec_remaining(),
        {
            let (after_flag, flag) = match cursor.read_bits(1) {
                Ok(read) => read,
                Err(e) => return Err(e),
            };
            let (next, nibble) = match after_flag.read_bits(4) {
                Ok(read) => read,
                Err(e) => return Err(e),
            };
            proof {
                lemma_bits_value_single(rest.buffer@, cursor.bit_offset as int);
                lemma_bits_value_bound(rest.buffer@, cursor.bit_offset + 1, 4);
                lemma2_to64();
                lemma_shift_or(result, nibble);
                lemma_shift_in(acc, nibble as nat);
                acc = 16 * acc + nibble as nat;
                groups = groups + 1;
            }
            result = (result << 4) | nibble;
            index = index + 5;
            cursor = next;
            if flag == 0 {
                return Ok((cursor, (result, index)));
            }
        }
    }

    /// Decodes a literal's groups at `position`, a buffer and a bit offset
    /// into it, and gives the position behind them.
    pub fn from_bytes<'a>(position: (&'a [u8], usize)) -> (r: Result<
        ((&'a [u8], usize), Literal),
        ErrorKind,
    >)
        requires
            addressable(position.0@),
        ensures
            match r {
                Ok((next, literal)) => {
                    &&& literal_groups(position.0@, position.1 as int, 0, 0) matches Some(
                        (value, groups),
                    )
                    &&& literal.content.0 == value % (u128::MAX + 1) as nat
                    &&& literal.content.1 == 5 * groups
                    &&& literal.content.1 >= 5
                    &&& next.0 == position.0
                    &&& next.1 == position.1 + literal.content.1
                    &&& next.1 <= total_bits(position.0@)
                },
                Err(e) => e == ErrorKind::Truncated && literal_groups(
                    position.0@,
                    position.1 as int,
                    0,
                    0,
                ) is None,
            },
    {
        let rest = BitCursor::from_position(position)?;
        let (next, content) = Literal::read(rest)?;
        Ok((next.position(), Literal { content }))
    }
}

/// Shifting left by four bits and putting a nibble below multiplies by 16,
/// keeps the low 128 bits, and adds the nibble.
proof fn lemma_shift_or(value: u128, nibble: u128)
    by (bit_vector)
    requires
        nibble < 16,
    ensures
        (value << 4) | nibble == (value as int * 16) % (u128::MAX + 1) + nibble,
{
}

/// Shifting a nibble into a value kept to 128 bits gives the shifted value
/// kept to 128 bits, and the sum in it does not carry.
proof fn lemma_shift_in(acc: nat, nibble: nat)
    requires
        nibble < 16,
    ensures
        ((acc % (u128::MAX + 1) as nat) * 16) % (u128::MAX + 1) as nat + nibble == (16 * acc
            + nibble) % (u128::MAX + 1) as nat,
{
    let m: int = u128::MAX + 1;
    let k: int = 0x1000_0000_0000_0000_0000_0000_0000_0000;
    assert(m == 16 * k);
    let low = acc as int % m;
    let top = acc as int / m;
    lemma_fundamental_div_mod(acc as int, m);
    lemma_fundamental_div_mod(low, k);
    lemma_mod_bound(low, k);
    lemma_fundamental_div_mod_converse(low * 16, m, low / k, 16 * (low % k));
    lemma_fundamental_div_mod_converse(
        (16 * acc + nibble) as int,
        m,
        16 * top + low / k,
        16 * (low % k) + nibble,
    );
}

/// Decodes the payload of a literal packet at `position`, a buffer and a bit
/// offset into it. The value is the groups' value, kept to 128 bits, as a
/// signed integer.
pub fn parse_literal<'a>(position: (&'a [u8], usize)) -> (r: Result<ParseReturnInfo<'a>, ErrorKind>)
    requires
        addressable(position.0@),
    ensures
        agrees(r, position, decode_literal(position.0@, position.1 as int)),
        r matches Ok(info) ==> info.position.1 <= total_bits(position.0@) && info.bits_read >= 5
            && info.packets_read == 1,
{
    let (next, literal) = Literal::from_bytes(position)?;
    let raw = literal.content.0;
    let value: i128 = if raw <= 0x7fff_ffff_ffff_ffff_ffff_ffff_ffff_ffff {
        raw as i128
    } else {
        (raw - 0x8000_0000_0000_0000_0000_0000_0000_0000) as i128 + i128::MIN
    };
    Ok(ParseReturnInfo { position: next, bits_read: literal.content.1, packets_read: 1, value })
}

} // verus!
