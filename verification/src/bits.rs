//! The bit-level view of a byte buffer.
//!
//! Bit `i` of a buffer is bit `7 - i % 8` of byte `i / 8`: within a byte the
//! most significant bit comes first. A run of bits is read as a big-endian
//! unsigned integer.

use bitvec::field::BitField;
use bitvec::order::Msb0;
use bitvec::view::BitView;
use vstd::arithmetic::power2::{lemma2_to64, lemma_pow2_unfold, pow2};
use vstd::prelude::*;

verus! {

/// The number of bits in a buffer.
pub open spec fn total_bits(buf: Seq<u8>) -> int {
    8 * (buf.len() as int)
}

/// The buffers this library reads: those whose bit length stays within what
/// a bit slice over them can address, an eighth of the `usize` range.
pub open spec fn addressable(buf: Seq<u8>) -> bool {
    total_bits(buf) <= usize::MAX / 8
}

/// Bit `i` of the buffer, most significant bit of each byte first.
pub open spec fn bit_at(buf: Seq<u8>, i: int) -> bool {
    (buf[i / 8] as nat / pow2((7 - i % 8) as nat)) % 2 == 1
}

/// The `n` bits that start at bit `start`, read as a big-endian unsigned
/// integer: the first bit is the most significant.
pub open spec fn bits_value(buf: Seq<u8>, start: int, n: nat) -> nat
    decreases n,
{
    if n == 0 {
        0
    } else {
        2 * bits_value(buf, start, (n - 1) as nat) + if bit_at(buf, start + n - 1) {
            1nat
        } else {
            0nat
        }
    }
}

/// Whether the library reads `buf`: a check to make before handing a buffer
/// of unknown size to a decoder.
pub fn is_addressable(buf: &[u8]) -> (r: bool)
    ensures
        r == addressable(buf@),
{
    buf.len() <= usize::MAX / 64
}

/// A run of `n` bits is a number below two to the `n`.
pub proof fn lemma_bits_value_bound(buf: Seq<u8>, start: int, n: nat)
    ensures
        bits_value(buf, start, n) < pow2(n),
    decreases n,
{
    if n == 0 {
        lemma2_to64();
    } else {
        lemma_bits_value_bound(buf, start, (n - 1) as nat);
        lemma_pow2_unfold(n);
    }
}

/// A byte is the sum of its bits, each at its weight.
proof fn lemma_byte_is_its_bits(x: u8)
    by (bit_vector)
    ensures
        x == 128 * (x / 128 % 2) + 64 * (x / 64 % 2) + 32 * (x / 32 % 2) + 16 * (x / 16 % 2) + 8
            * (x / 8 % 2) + 4 * (x / 4 % 2) + 2 * (x / 2 % 2) + x % 2,
{
}

/// Bit `j` of byte `index` is the byte's digit of weight two to the
/// `7 - j`.
proof fn lemma_bit_of_byte(buf: Seq<u8>, index: int, j: int)
    requires
        0 <= j < 8,
    ensures
        bit_at(buf, 8 * index + j) == (buf[index] as nat / pow2((7 - j) as nat) % 2 == 1),
{
    assert((8 * index + j) / 8 == index);
    assert((8 * index + j) % 8 == j);
}

/// Eight bits from a byte boundary on are the byte there.
pub proof fn lemma_bits_value_byte(buf: Seq<u8>, index: int)
    requires
        0 <= index < buf.len(),
    ensures
        bits_value(buf, 8 * index, 8) == buf[index],
{
    let byte = buf[index];
    let start = 8 * index;
    lemma2_to64();
    lemma_bit_of_byte(buf, index, 0);
    lemma_bit_of_byte(buf, index, 1);
    lemma_bit_of_byte(buf, index, 2);
    lemma_bit_of_byte(buf, index, 3);
    lemma_bit_of_byte(buf, index, 4);
    lemma_bit_of_byte(buf, index, 5);
    lemma_bit_of_byte(buf, index, 6);
    lemma_bit_of_byte(buf, index, 7);
    lemma_byte_is_its_bits(byte);
    assert(bits_value(buf, start, 0) == 0);
    assert(bits_value(buf, start, 1) == byte / 128 % 2);
    assert(bits_value(buf, start, 2) == 2 * bits_value(buf, start, 1) + byte / 64 % 2);
    assert(bits_value(buf, start, 3) == 2 * bits_value(buf, start, 2) + byte / 32 % 2);
    assert(bits_value(buf, start, 4) == 2 * bits_value(buf, start, 3) + byte / 16 % 2);
    assert(bits_value(buf, start, 5) == 2 * bits_value(buf, start, 4) + byte / 8 % 2);
    assert(bits_value(buf, start, 6) == 2 * bits_value(buf, start, 5) + byte / 4 % 2);
    assert(bits_value(buf, start, 7) == 2 * bits_value(buf, start, 6) + byte / 2 % 2);
    assert(byte as nat / 1 == byte);
    assert(bits_value(buf, start, 8) == 2 * bits_value(buf, start, 7) + byte % 2);
}

/// A run of one bit is 1 where the bit is set and 0 where it is not.
pub proof fn lemma_bits_value_single(buf: Seq<u8>, start: int)
    ensures
        bits_value(buf, start, 1) == if bit_at(buf, start) {
            1nat
        } else {
            0nat
        },
{
    reveal_with_fuel(bits_value, 2);
}

/// Bit `index` of `buf`, or `None` past its end.
///
/// Trusted: calls `BitSlice::<u8, Msb0>::get` of `bitvec` with a single
/// index on the bit view of `buf`. The contract claims that the call answers
/// exactly for the indices below the bit length, with the buffer's bit in
/// most-significant-first order.
#[verifier::external_body]
pub(crate) fn get_bit(buf: &[u8], index: usize) -> (r: Option<bool>)
    requires
        addressable(buf@),
    ensures
        r == if index < total_bits(buf@) {
            Some(bit_at(buf@, index as int))
        } else {
            None
        },
{
    match buf.view_bits::<Msb0>().get(index) {
        Some(bit) => Some(*bit),
        None => None,
    }
}

/// The bits `start..end` of `buf` as a big-endian integer, or `None` where
/// the range leaves the buffer.
///
/// Trusted: calls `BitSlice::<u8, Msb0>::get` of `bitvec` with a range, and
/// `BitField::load_be::<u128>` on the bit slice it gives. The contract claims
/// that the range is answered exactly when it ends within the buffer, and
/// that the loaded integer has the first bit of the range as its most
/// significant. The range must hold between 1 and 128 bits: `load_be` panics
/// on any other width.
#[verifier::external_body]
pub(crate) fn load_bits(buf: &[u8], start: usize, end: usize) -> (r: Option<u128>)
    requires
        addressable(buf@),
        start < end,
        end - start <= 128,
    ensures
        match r {
            Some(v) => end <= total_bits(buf@) && v == bits_value(
                buf@,
                start as int,
                (end - start) as nat,
            ),
            None => end > total_bits(buf@),
        },
{
    match buf.view_bits::<Msb0>().get(start..end) {
        Some(run) => Some(run.load_be::<u128>()),
        None => None,
    }
}

} // verus!
