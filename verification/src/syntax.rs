//! Packets as trees: what a packet is, apart from the bits that it is
//! written in.
//!
//! A tree has a value, which is what the packet evaluates to, and an
//! encoding, which is the bits that stand for it. Decoding the encoding of a
//! tree gives the tree's value: that is what makes the decoder a decoder of
//! this format.

use crate::bits::{bit_at, bits_value, total_bits};
use crate::encoding::{
    bits_of, holds_bits, lemma_bits_of_len, lemma_bits_of_value, lemma_group_run_len,
    lemma_holds_split, lemma_literal_round_trip, literal_encoding, sixteen_to,
};
use crate::error::ErrorKind;
use crate::grammar::{
    arity_ok, decode_children, decode_packet, length_descriptor, more_due, reduce, signed_128,
    Decoded,
};
use crate::protocols::base::PacketType;
use crate::protocols::operator_length_parser::LengthDescriptor;
use vstd::arithmetic::power2::lemma2_to64;
use vstd::prelude::*;

verus! {

/// A packet as a tree.
pub enum Packet {
    /// A number, written in `groups` groups.
    Literal { version: nat, value: nat, groups: nat },
    /// An operator over child packets. `counted` says how the children are
    /// bounded: by their number, or else by their total bit length.
    Operator { version: nat, operator: PacketType, counted: bool, children: Seq<Packet> },
}

/// What `operator` makes of the running value `acc` and the next child's
/// value.
pub open spec fn combine(operator: PacketType, acc: int, child: int) -> int {
    match operator {
        PacketType::Literal => child,
        PacketType::Sum => acc + child,
        PacketType::Product => acc * child,
        PacketType::Minimum => if child < acc {
            child
        } else {
            acc
        },
        PacketType::Maximum => if child > acc {
            child
        } else {
            acc
        },
        PacketType::GreaterThan => if acc > child {
            1
        } else {
            0
        },
        PacketType::LessThan => if acc < child {
            1
        } else {
            0
        },
        PacketType::Equal => if acc == child {
            1
        } else {
            0
        },
    }
}

impl Packet {
    /// The value of the packet: a literal's number, as the 128-bit signed
    /// integer that it is kept as, or what the operator makes of its
    /// children's values, taken from the first to the last.
    pub open spec fn value(self) -> int
        decreases self, 0nat,
    {
        match self {
            Packet::Literal { value, .. } => signed_128(value),
            Packet::Operator { operator, children, .. } => Self::fold(
                operator,
                children,
                children.len(),
            ),
        }
    }

    /// What `operator` makes of the values of the first `n` of `children`.
    pub open spec fn fold(operator: PacketType, children: Seq<Packet>, n: nat) -> int
        decreases children, n,
    {
        if n == 0 || n > children.len() {
            0
        } else if n == 1 {
            children[0].value()
        } else {
            combine(
                operator,
                Self::fold(operator, children, (n - 1) as nat),
                children[n - 1].value(),
            )
        }
    }

    /// The bits that stand for the packet: three bits of version, three bits
    /// of type, and then the groups of a literal, or a length descriptor and
    /// the children on end.
    pub open spec fn encoding(self) -> Seq<bool>
        decreases self, 0nat,
    {
        match self {
            Packet::Literal { version, value, groups } => bits_of(version, 3) + bits_of(4, 3)
                + literal_encoding(value, groups),
            Packet::Operator { version, operator, counted, children } => bits_of(version, 3)
                + bits_of(operator.spec_type_id(), 3) + if counted {
                seq![true] + bits_of(children.len(), 11)
            } else {
                seq![false] + bits_of(Self::run(children, children.len()).len(), 15)
            } + Self::run(children, children.len()),
        }
    }

    /// The encodings of the first `n` of `children` on end.
    pub open spec fn run(children: Seq<Packet>, n: nat) -> Seq<bool>
        decreases children, n,
    {
        if n == 0 || n > children.len() {
            Seq::empty()
        } else {
            Self::run(children, (n - 1) as nat) + children[n - 1].encoding()
        }
    }

    /// The packet can be written: its numbers fit their fields, and its
    /// operators have a number of children that they are defined for.
    pub open spec fn well_formed(self) -> bool
        decreases self,
    {
        match self {
            Packet::Literal { version, value, groups } => {
                &&& version < 8
                &&& groups >= 1
                &&& value < sixteen_to(groups)
            },
            Packet::Operator { version, operator, counted, children } => {
                &&& version < 8
                &&& arity_ok(operator, children.len())
                &&& if counted {
                    children.len() < 2048
                } else {
                    Self::run(children, children.len()).len() < 32768
                }
                &&& forall|i: int|
                    0 <= i < children.len() ==> (#[trigger] children[i]).well_formed()
            },
        }
    }

    /// What `operator` makes of the first children stays within `i128`,
    /// however many of them are taken.
    pub open spec fn fold_in_range(operator: PacketType, children: Seq<Packet>) -> bool {
        forall|n: nat|
            1 <= n <= children.len() ==> i128::MIN <= #[trigger] Self::fold(operator, children, n)
                <= i128::MAX
    }

    /// No sum or product in the packet leaves `i128` on its way from the
    /// first child to the last.
    pub open spec fn in_range(self) -> bool
        decreases self,
    {
        match self {
            Packet::Literal { .. } => true,
            Packet::Operator { operator, children, .. } => {
                &&& forall|i: int| 0 <= i < children.len() ==> (#[trigger] children[i]).in_range()
                &&& operator is Sum || operator is Product ==> Self::fold_in_range(
                    operator,
                    children,
                )
            },
        }
    }

    /// The number of packets that decoding the packet counts: one for a
    /// literal, the number of children for an operator.
    pub open spec fn breadth(self) -> nat {
        match self {
            Packet::Literal { .. } => 1,
            Packet::Operator { children, .. } => children.len(),
        }
    }
}

/// The encoding of a well-formed packet has at least eleven bits: a header
/// and one group.
pub proof fn lemma_encoding_len(p: Packet)
    requires
        p.well_formed(),
    ensures
        p.encoding().len() >= 11,
{
    lemma_bits_of_len(4, 3);
    match p {
        Packet::Literal { version, value, groups } => {
            lemma_bits_of_len(version, 3);
            lemma_group_run_len(value, groups, false);
        },
        Packet::Operator { version, operator, counted, children } => {
            lemma_bits_of_len(version, 3);
            lemma_bits_of_len(operator.spec_type_id(), 3);
            lemma_bits_of_len(children.len(), 11);
            lemma_bits_of_len(Packet::run(children, children.len()).len(), 15);
        },
    }
}

/// A buffer that holds a run of children holds each child where the
/// children before it end, and the run grows with each child.
proof fn lemma_holds_child(buf: Seq<u8>, start: int, children: Seq<Packet>, n: nat, k: nat)
    requires
        k < n <= children.len(),
        holds_bits(buf, start, Packet::run(children, n)),
    ensures
        holds_bits(buf, start + Packet::run(children, k).len(), children[k as int].encoding()),
        Packet::run(children, k).len() + children[k as int].encoding().len() <= Packet::run(
            children,
            n,
        ).len(),
    decreases n,
{
    lemma_holds_split(
        buf,
        start,
        Packet::run(children, (n - 1) as nat),
        children[n - 1].encoding(),
    );
    if k + 1 < n {
        lemma_holds_child(buf, start, children, (n - 1) as nat, k);
    }
}

/// Operators that select or compare keep within the range of their
/// children's values.
proof fn lemma_fold_within(operator: PacketType, children: Seq<Packet>, n: nat)
    requires
        1 <= n <= children.len(),
        !(operator is Sum || operator is Product || operator is Literal),
        forall|i: int|
            0 <= i < children.len() ==> i128::MIN <= (#[trigger] children[i]).value()
                <= i128::MAX,
    ensures
        i128::MIN <= Packet::fold(operator, children, n) <= i128::MAX,
    decreases n,
{
    if n > 1 {
        lemma_fold_within(operator, children, (n - 1) as nat);
    }
}

/// The value of a packet that can be written, and in which no sum or
/// product overflows, is an `i128`.
pub proof fn lemma_value_in_range(p: Packet)
    requires
        p.well_formed(),
        p.in_range(),
    ensures
        i128::MIN <= p.value() <= i128::MAX,
    decreases p,
{
    match p {
        Packet::Literal { .. } => {},
        Packet::Operator { operator, children, .. } => {
            if !(operator is Sum || operator is Product) {
                assert forall|i: int| 0 <= i < children.len() implies i128::MIN <= (
                #[trigger] children[i]).value() <= i128::MAX by {
                    lemma_value_in_range(children[i]);
                }
                lemma_fold_within(operator, children, children.len());
            }
        },
    }
}

/// The limit that a packet's length descriptor puts on `children`.
pub open spec fn limit_of(counted: bool, children: Seq<Packet>) -> LengthDescriptor {
    if counted {
        LengthDescriptor::PacketCount(children.len() as u16)
    } else {
        LengthDescriptor::TotalBits(Packet::run(children, children.len()).len() as u16)
    }
}

/// A buffer that holds the encoding of an operator packet holds its header
/// and its length descriptor, which decode to the packet's operator and
/// limit, and behind them the run of its children.
proof fn lemma_operator_header(buf: Seq<u8>, off: int, p: Packet)
    requires
        p.well_formed(),
        holds_bits(buf, off, p.encoding()),
        p is Operator,
    ensures
        off + 6 <= total_bits(buf),
        PacketType::spec_from_type_id(bits_value(buf, off + 3, 3)) == Some(p->operator),
        !(p->operator is Literal),
        length_descriptor(buf, off + 6) == Ok::<LengthDescriptor, ErrorKind>(
            limit_of(p->counted, p->children),
        ),
        holds_bits(
            buf,
            off + 6 + limit_of(p->counted, p->children).width(),
            Packet::run(p->children, p->children.len()),
        ),
        p.encoding().len() == 6 + limit_of(p->counted, p->children).width() + Packet::run(
            p->children,
            p->children.len(),
        ).len(),
        Packet::run(p->children, 0).len() == 0,
{
    let version = p->Operator_version;
    let operator = p->operator;
    let counted = p->counted;
    let children = p->children;
    let run = Packet::run(children, children.len());
    let field = if counted {
        bits_of(children.len(), 11)
    } else {
        bits_of(run.len(), 15)
    };
    let descriptor = seq![counted] + field;
    let header = bits_of(version, 3) + bits_of(operator.spec_type_id(), 3);
    lemma2_to64();
    lemma_bits_of_len(version, 3);
    lemma_bits_of_len(operator.spec_type_id(), 3);
    lemma_bits_of_len(children.len(), 11);
    lemma_bits_of_len(run.len(), 15);
    assert(p.encoding() == header + descriptor + run);
    lemma_holds_split(buf, off, header + descriptor, run);
    lemma_holds_split(buf, off, header, descriptor);
    lemma_holds_split(buf, off, bits_of(version, 3), bits_of(operator.spec_type_id(), 3));
    lemma_holds_split(buf, off + 6, seq![counted], field);
    lemma_bits_of_value(buf, off + 3, operator.spec_type_id(), 3);
    assert(PacketType::spec_from_type_id(operator.spec_type_id()) == Some(operator));
    assert(bit_at(buf, off + 6) == counted) by {
        assert(seq![counted][0] == counted);
    }
    if counted {
        lemma_bits_of_value(buf, off + 7, children.len(), 11);
    } else {
        lemma_bits_of_value(buf, off + 7, run.len(), 15);
    }
}

/// Decoding what was encoded: a buffer that holds the encoding of a packet
/// decodes there to the packet's value, over exactly the bits of the
/// encoding. This holds of every packet that can be written and in which no
/// sum or product overflows.
pub proof fn lemma_decode_encoding(buf: Seq<u8>, off: int, p: Packet)
    requires
        p.well_formed(),
        p.in_range(),
        holds_bits(buf, off, p.encoding()),
    ensures
        decode_packet(buf, off) == Ok::<Decoded, ErrorKind>(
            Decoded { value: p.value(), bits: p.encoding().len(), packets: p.breadth() },
        ),
    decreases p, 0nat,
{
    lemma2_to64();
    lemma_encoding_len(p);
    match p {
        Packet::Literal { version, value, groups } => {
            let header = bits_of(version, 3) + bits_of(4, 3);
            lemma_bits_of_len(version, 3);
            lemma_bits_of_len(4, 3);
            lemma_group_run_len(value, groups, false);
            lemma_holds_split(buf, off, header, literal_encoding(value, groups));
            lemma_holds_split(buf, off, bits_of(version, 3), bits_of(4, 3));
            lemma_bits_of_value(buf, off + 3, 4, 3);
            lemma_literal_round_trip(buf, off + 6, value, groups);
        },
        Packet::Operator { version, operator, counted, children } => {
            lemma_operator_header(buf, off, p);
            let start = off + 6 + limit_of(counted, children).width();
            lemma_decode_run(buf, start, operator, counted, children, 0);
        },
    }
}

/// Decoding a run of encoded children from the `k`-th on, with what the
/// children before it came to, gives what the operator makes of them all.
proof fn lemma_decode_run(
    buf: Seq<u8>,
    start: int,
    operator: PacketType,
    counted: bool,
    children: Seq<Packet>,
    k: nat,
)
    requires
        k <= children.len(),
        arity_ok(operator, children.len()),
        forall|i: int| 0 <= i < children.len() ==> (#[trigger] children[i]).well_formed(),
        forall|i: int| 0 <= i < children.len() ==> (#[trigger] children[i]).in_range(),
        operator is Sum || operator is Product ==> Packet::fold_in_range(operator, children),
        if counted {
            children.len() < 2048
        } else {
            Packet::run(children, children.len()).len() < 32768
        },
        holds_bits(buf, start, Packet::run(children, children.len())),
    ensures
        decode_children(
            buf,
            start + Packet::run(children, k).len(),
            operator,
            limit_of(counted, children),
            k,
            Packet::run(children, k).len(),
            Packet::fold(operator, children, k),
        ) == Ok::<Decoded, ErrorKind>(
            Decoded {
                value: Packet::fold(operator, children, children.len()),
                bits: Packet::run(children, children.len()).len(),
                packets: children.len(),
            },
        ),
    decreases children, children.len() - k,
{
    let n = children.len();
    let limit = limit_of(counted, children);
    let done = Packet::run(children, k).len();
    if k < n {
        let child = children[k as int];
        lemma_holds_child(buf, start, children, n, k);
        lemma_encoding_len(child);
        lemma_decode_encoding(buf, start + done, child);
        lemma_value_in_range(child);
        assert(more_due(limit, done, k));
        let next = Packet::fold(operator, children, k + 1);
        if k >= 1 && (operator is Sum || operator is Product) {
            assert(i128::MIN <= Packet::fold(operator, children, k + 1) <= i128::MAX);
        }
        assert(reduce(operator, k, Packet::fold(operator, children, k), child.value()) == Ok::<
            int,
            ErrorKind,
        >(next));
        assert(Packet::run(children, k + 1) == Packet::run(children, k) + child.encoding());
        lemma_decode_run(buf, start, operator, counted, children, k + 1);
    } else {
        assert(!more_due(limit, done, k));
    }
}

/// Decoding what was encoded, where a sum or a product overflows: the
/// decode fails with an overflow. With `lemma_decode_encoding` this says
/// what the encoding of every packet that can be written decodes to.
pub proof fn lemma_decode_encoding_overflow(buf: Seq<u8>, off: int, p: Packet)
    requires
        p.well_formed(),
        !p.in_range(),
        holds_bits(buf, off, p.encoding()),
    ensures
        decode_packet(buf, off) == Err::<Decoded, ErrorKind>(ErrorKind::Overflow),
    decreases p, 0nat,
{
    lemma2_to64();
    match p {
        Packet::Literal { .. } => {},
        Packet::Operator { version, operator, counted, children } => {
            lemma_operator_header(buf, off, p);
            let start = off + 6 + limit_of(counted, children).width();
            lemma_decode_run_overflow(buf, start, operator, counted, children, 0);
        },
    }
}

/// Decoding a run of encoded children from the `k`-th on, where the
/// children before it came to a value without overflow and an overflow is
/// still to come, fails with that overflow.
proof fn lemma_decode_run_overflow(
    buf: Seq<u8>,
    start: int,
    operator: PacketType,
    counted: bool,
    children: Seq<Packet>,
    k: nat,
)
    requires
        k <= children.len(),
        arity_ok(operator, children.len()),
        forall|i: int| 0 <= i < children.len() ==> (#[trigger] children[i]).well_formed(),
        forall|i: int| 0 <= i < k ==> (#[trigger] children[i]).in_range(),
        operator is Sum || operator is Product ==> forall|n: nat|
            1 <= n <= k ==> i128::MIN <= #[trigger] Packet::fold(operator, children, n)
                <= i128::MAX,
        !({
            &&& forall|i: int| 0 <= i < children.len() ==> (#[trigger] children[i]).in_range()
            &&& operator is Sum || operator is Product ==> Packet::fold_in_range(
                operator,
                children,
            )
        }),
        if counted {
            children.len() < 2048
        } else {
            Packet::run(children, children.len()).len() < 32768
        },
        holds_bits(buf, start, Packet::run(children, children.len())),
    ensures
        decode_children(
            buf,
            start + Packet::run(children, k).len(),
            operator,
            limit_of(counted, children),
            k,
            Packet::run(children, k).len(),
            Packet::fold(operator, children, k),
        ) == Err::<Decoded, ErrorKind>(ErrorKind::Overflow),
    decreases children, children.len() - k,
{
    let n = children.len();
    let limit = limit_of(counted, children);
    let done = Packet::run(children, k).len();
    if k < n {
        let child = children[k as int];
        lemma_holds_child(buf, start, children, n, k);
        lemma_encoding_len(child);
        assert(more_due(limit, done, k));
        if !child.in_range() {
            lemma_decode_encoding_overflow(buf, start + done, child);
        } else {
            lemma_decode_encoding(buf, start + done, child);
            lemma_value_in_range(child);
            let next = Packet::fold(operator, children, k + 1);
            let calculative = operator is Sum || operator is Product;
            if calculative && !(i128::MIN <= next <= i128::MAX) {
                assert(reduce(operator, k, Packet::fold(operator, children, k), child.value())
                    == Err::<int, ErrorKind>(ErrorKind::Overflow));
            } else {
                assert(reduce(operator, k, Packet::fold(operator, children, k), child.value())
                    == Ok::<int, ErrorKind>(next));
                assert(Packet::run(children, k + 1) == Packet::run(children, k)
                    + child.encoding());
                lemma_decode_run_overflow(buf, start, operator, counted, children, k + 1);
            }
        }
    }
}

} // verus!
