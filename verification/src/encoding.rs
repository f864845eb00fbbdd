//! How numbers are written as bits, and that reading the bits gives the
//! numbers back.

use crate::bits::{bit_at, bits_value, total_bits};
use crate::error::ErrorKind;
use crate::grammar::{decode_literal, literal_groups, Decoded};
use vstd::arithmetic::power2::{lemma2_to64, lemma_pow2_unfold, pow2};
use vstd::prelude::*;

verus! {

/// The low `width` bits of `value`, most significant first.
pub open spec fn bits_of(value: nat, width: nat) -> Seq<bool>
    decreases width,
{
    if width == 0 {
        Seq::empty()
    } else {
        bits_of(value / 2, (width - 1) as nat).push(value % 2 == 1)
    }
}

/// Sixteen to the power `groups`: the numbers below it are those that
/// `groups` nibbles can hold.
pub open spec fn sixteen_to(groups: nat) -> nat
    decreases groups,
{
    if groups == 0 {
        1
    } else {
        16 * sixteen_to((groups - 1) as nat)
    }
}

/// The low `groups` nibbles of `value` as five-bit groups, most significant
/// nibble first, each behind the flag 1 but for the last, whose flag is 1
/// only if `more` groups follow the run.
pub open spec fn group_run(value: nat, groups: nat, more: bool) -> Seq<bool>
    decreases groups,
{
    if groups == 0 {
        Seq::empty()
    } else {
        group_run(value / 16, (groups - 1) as nat, true) + seq![more] + bits_of(value % 16, 4)
    }
}

/// `value` written as a literal of `groups` groups.
pub open spec fn literal_encoding(value: nat, groups: nat) -> Seq<bool> {
    group_run(value, groups, false)
}

/// The buffer holds the bits `bits` from bit `off` on.
pub open spec fn holds_bits(buf: Seq<u8>, off: int, bits: Seq<bool>) -> bool {
    &&& 0 <= off
    &&& off + bits.len() <= total_bits(buf)
    &&& forall|i: int| 0 <= i < bits.len() ==> bit_at(buf, off + i) == bits[i]
}

/// A buffer that holds two runs of bits on end holds each of them.
pub proof fn lemma_holds_split(buf: Seq<u8>, off: int, front: Seq<bool>, back: Seq<bool>)
    requires
        holds_bits(buf, off, front + back),
    ensures
        holds_bits(buf, off, front),
        holds_bits(buf, off + front.len(), back),
{
    let whole = front + back;
    assert forall|i: int| 0 <= i < front.len() implies bit_at(buf, off + i) == front[i] by {
        assert(whole[i] == front[i]);
    }
    assert forall|i: int| 0 <= i < back.len() implies bit_at(buf, off + front.len() + i)
        == back[i] by {
        assert(whole[front.len() + i] == back[i]);
    }
}

/// `width` bits are `width` bits.
pub proof fn lemma_bits_of_len(value: nat, width: nat)
    ensures
        bits_of(value, width).len() == width,
    decreases width,
{
    if width > 0 {
        lemma_bits_of_len(value / 2, (width - 1) as nat);
    }
}

/// Reading back the bits of a number: a buffer that holds the `width` bits
/// of a number below two to the `width` reads there as that number.
pub proof fn lemma_bits_of_value(buf: Seq<u8>, off: int, value: nat, width: nat)
    requires
        value < pow2(width),
        holds_bits(buf, off, bits_of(value, width)),
    ensures
        bits_value(buf, off, width) == value,
    decreases width,
{
    if width == 0 {
        lemma2_to64();
    } else {
        let front = bits_of(value / 2, (width - 1) as nat);
        lemma_bits_of_len(value / 2, (width - 1) as nat);
        lemma_pow2_unfold(width);
        assert(bits_of(value, width) =~= front + seq![value % 2 == 1]);
        lemma_holds_split(buf, off, front, seq![value % 2 == 1]);
        lemma_bits_of_value(buf, off, value / 2, (width - 1) as nat);
        assert(bit_at(buf, off + width - 1) == (value % 2 == 1)) by {
            assert(seq![value % 2 == 1][0] == (value % 2 == 1));
        }
    }
}

/// A run of groups is five bits a group.
pub proof fn lemma_group_run_len(value: nat, groups: nat, more: bool)
    ensures
        group_run(value, groups, more).len() == 5 * groups,
    decreases groups,
{
    if groups > 0 {
        lemma_group_run_len(value / 16, (groups - 1) as nat, true);
        lemma_bits_of_len(value % 16, 4);
    }
}

/// Reading a run of groups shifts the run's nibbles into the running value,
/// and goes on behind the run exactly if its last flag says so.
proof fn lemma_read_group_run(
    buf: Seq<u8>,
    off: int,
    value: nat,
    groups: nat,
    more: bool,
    acc: nat,
    seen: nat,
)
    requires
        groups >= 1,
        value < sixteen_to(groups),
        holds_bits(buf, off, group_run(value, groups, more)),
    ensures
        literal_groups(buf, off, acc, seen) == if more {
            literal_groups(buf, off + 5 * groups, acc * sixteen_to(groups) + value, seen + groups)
        } else {
            Some((acc * sixteen_to(groups) + value, seen + groups))
        },
    decreases groups,
{
    let head = group_run(value / 16, (groups - 1) as nat, true);
    lemma_group_run_len(value, groups, more);
    lemma_group_run_len(value / 16, (groups - 1) as nat, true);
    lemma_bits_of_len(value % 16, 4);
    let last = off + 5 * (groups - 1);
    lemma_holds_split(buf, off, head + seq![more], bits_of(value % 16, 4));
    lemma_holds_split(buf, off, head, seq![more]);
    assert(bit_at(buf, last) == more) by {
        assert(seq![more][0] == more);
    }
    lemma2_to64();
    lemma_bits_of_value(buf, last + 1, value % 16, 4);
    let nibble = bits_value(buf, last + 1, 4);
    assert(nibble == value % 16);
    assert(sixteen_to(groups) == 16 * sixteen_to((groups - 1) as nat));
    if groups == 1 {
        assert(sixteen_to(0) == 1);
        assert(value % 16 == value);
        assert(acc * sixteen_to(groups) == 16 * acc) by (nonlinear_arith)
            requires
                sixteen_to(groups) == 16,
        ;
    } else {
        let p = sixteen_to((groups - 1) as nat);
        lemma_read_group_run(buf, off, value / 16, (groups - 1) as nat, true, acc, seen);
        let shifted = acc * p + value / 16;
        assert(literal_groups(buf, off, acc, seen) == literal_groups(
            buf,
            last,
            shifted,
            (seen + groups - 1) as nat,
        ));
        assert(16 * (acc * p) == acc * (16 * p)) by (nonlinear_arith);
        assert(16 * shifted + nibble == acc * sixteen_to(groups) + value);
    }
}

/// Reading back what was written: a buffer that holds, from bit `off`, the
/// `groups` groups of a number below 16 to the `groups` decodes there to
/// that number and that many groups. Where the number fits `i128`, that is
/// the value of the literal.
pub proof fn lemma_literal_round_trip(buf: Seq<u8>, off: int, value: nat, groups: nat)
    requires
        groups >= 1,
        value < sixteen_to(groups),
        holds_bits(buf, off, literal_encoding(value, groups)),
    ensures
        literal_groups(buf, off, 0, 0) == Some((value, groups)),
        value <= i128::MAX ==> decode_literal(buf, off) == Ok::<Decoded, ErrorKind>(
            Decoded { value: value as int, bits: 5 * groups, packets: 1 },
        ),
{
    lemma_read_group_run(buf, off, value, groups, false, 0, 0);
    assert(0 * sixteen_to(groups) == 0) by (nonlinear_arith);
    if value <= i128::MAX {
        vstd::arithmetic::div_mod::lemma_small_mod(value, (u128::MAX + 1) as nat);
    }
}

} // verus!
