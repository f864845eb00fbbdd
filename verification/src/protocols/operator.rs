use crate::bits::{addressable, total_bits};
use crate::cursor::BitCursor;
use crate::error::ErrorKind;
use crate::grammar::{decode_children, decode_operator, reduce};
use crate::protocols::base::{parse_packet_from_base, PacketType};
use crate::protocols::operator_length_parser::LengthDescriptor;
use crate::protocols::return_info::{agrees, ParseReturnInfo};
use vstd::prelude::*;

verus! {

/// The operators that compute: a sum or a product, which may overflow.
pub open spec fn is_calculative(operator: PacketType) -> bool {
    operator is Sum || operator is Product
}

/// The operators that select one of their children's values.
pub open spec fn is_selective(operator: PacketType) -> bool {
    operator is Minimum || operator is Maximum
}

/// The operators that compare exactly two children.
pub open spec fn is_boolean(operator: PacketType) -> bool {
    operator is GreaterThan || operator is LessThan || operator is Equal
}

/// `r` is the outcome `expected` of folding one more child in.
pub open spec fn folded(r: Result<i128, ErrorKind>, expected: Result<int, ErrorKind>) -> bool {
    match r {
        Ok(v) => expected == Ok::<int, ErrorKind>(v as int),
        Err(e) => expected == Err::<int, ErrorKind>(e),
    }
}

/// Folds one more child into a sum or a product.
fn calculate(calculation: PacketType, count: usize, acc: i128, child: i128) -> (r: Result<
    i128,
    ErrorKind,
>)
    requires
        is_calculative(calculation),
    ensures
        folded(r, reduce(calculation, count as nat, acc as int, child as int)),
{
    if count == 0 {
        return Ok(child);
    }
    let total = match calculation {
        PacketType::Sum => acc.checked_add(child),
        _ => acc.checked_mul(child),
    };
    match total {
        Some(v) => Ok(v),
        None => Err(ErrorKind::Overflow),
    }
}

/// Folds one more child into a minimum or a maximum.
fn select(selection: PacketType, count: usize, acc: i128, child: i128) -> (r: i128)
    requires
        is_selective(selection),
    ensures
        reduce(selection, count as nat, acc as int, child as int) == Ok::<int, ErrorKind>(
            r as int,
        ),
{
    if count == 0 {
        return child;
    }
    match selection {
        PacketType::Minimum => if child < acc {
            child
        } else {
            acc
        },
        _ => if child > acc {
            child
        } else {
            acc
        },
    }
}

/// Folds one more child into a comparison: the first child is kept, the
/// second is compared with it, and there is no third.
fn decide(boolean: PacketType, count: usize, acc: i128, child: i128) -> (r: Result<
    i128,
    ErrorKind,
>)
    requires
        is_boolean(boolean),
    ensures
        folded(r, reduce(boolean, count as nat, acc as int, child as int)),
{
    if count == 0 {
        return Ok(child);
    }
    if count > 1 {
        return Err(ErrorKind::MalformedArity);
    }
    let holds = match boolean {
        PacketType::GreaterThan => acc > child,
        PacketType::LessThan => acc < child,
        _ => acc == child,
    };
    if holds {
        Ok(1)
    } else {
        Ok(0)
    }
}

/// Decodes the children of a sum or a product from `position` on, while
/// `condition` says that another is due, and folds their values with
/// `calculation` as they come. There must be at least one child; a total
/// that leaves `i128` is an overflow.
pub fn parse_while_calculative<'a>(
    position: (&'a [u8], usize),
    calculation: PacketType,
    condition: LengthDescriptor,
) -> (r: Result<ParseReturnInfo<'a>, ErrorKind>)
    requires
        addressable(position.0@),
    ensures
        is_calculative(calculation) ==> agrees(
            r,
            position,
            decode_children(position.0@, position.1 as int, calculation, condition, 0, 0, 0),
        ),
        !is_calculative(calculation) ==> (r matches Err(e) && e == ErrorKind::UnknownType),
        r matches Ok(info) ==> info.position.1 <= total_bits(position.0@) && info.packets_read
            >= 1,
    decreases total_bits(position.0@) - position.1, 1nat,
{
    match calculation {
        PacketType::Sum | PacketType::Product => {},
        _ => {
            return Err(ErrorKind::UnknownType);
        },
    }
    let mut info = ParseReturnInfo { position, bits_read: 0, packets_read: 0, value: 0 };
    while condition.more_due(&info)
        invariant
            addressable(position.0@),
            is_calculative(calculation),
            info.continues_from(position),
            info.packets_read <= info.bits_read,
            info.packets_read == 0 ==> info.bits_read == 0,
            info.packets_read > 0 ==> info.position.1 <= total_bits(position.0@),
            decode_children(position.0@, position.1 as int, calculation, condition, 0, 0, 0)
                == decode_children(
                position.0@,
                info.position.1 as int,
                calculation,
                condition,
                info.packets_read as nat,
                info.bits_read as nat,
                info.value as int,
            ),
        decreases total_bits(position.0@) - info.position.1,
    {
        let child = match parse_packet_from_base(info.position) {
            Ok(child) => child,
            Err(e) => {
                return Err(e);
            },
        };
        let value = match calculate(calculation, info.packets_read, info.value, child.value) {
            Ok(value) => value,
            Err(e) => {
                return Err(e);
            },
        };
        info =
        ParseReturnInfo {
            position: child.position,
            bits_read: info.bits_read + child.bits_read,
            packets_read: info.packets_read + 1,
            value,
        };
    }
    if info.packets_read == 0 {
        return Err(ErrorKind::MalformedArity);
    }
    Ok(info)
}

/// Decodes the children of a minimum or a maximum from `position` on, while
/// `condition` says that another is due, and keeps the value that
/// `selection` prefers. There must be at least one child.
pub fn parse_while_selective<'a>(
    position: (&'a [u8], usize),
    selection: PacketType,
    condition: LengthDescriptor,
) -> (r: Result<ParseReturnInfo<'a>, ErrorKind>)
    requires
        addressable(position.0@),
    ensures
        is_selective(selection) ==> agrees(
            r,
            position,
            decode_children(position.0@, position.1 as int, selection, condition, 0, 0, 0),
        ),
        !is_selective(selection) ==> (r matches Err(e) && e == ErrorKind::UnknownType),
        r matches Ok(info) ==> info.position.1 <= total_bits(position.0@) && info.packets_read
            >= 1,
    decreases total_bits(position.0@) - position.1, 1nat,
{
    match selection {
        PacketType::Minimum | PacketType::Maximum => {},
        _ => {
            return Err(ErrorKind::UnknownType);
        },
    }
    let mut info = ParseReturnInfo { position, bits_read: 0, packets_read: 0, value: 0 };
    while condition.more_due(&info)
        invariant
            addressable(position.0@),
            is_selective(selection),
            info.continues_from(position),
            info.packets_read <= info.bits_read,
            info.packets_read == 0 ==> info.bits_read == 0,
            info.packets_read > 0 ==> info.position.1 <= total_bits(position.0@),
            decode_children(position.0@, position.1 as int, selection, condition, 0, 0, 0)
                == decode_children(
                position.0@,
                info.position.1 as int,
                selection,
                condition,
                info.packets_read as nat,
                info.bits_read as nat,
                info.value as int,
            ),
        decreases total_bits(position.0@) - info.position.1,
    {
        let child = match parse_packet_from_base(info.position) {
            Ok(child) => child,
            Err(e) => {
                return Err(e);
            },
        };
        let value = select(selection, info.packets_read, info.value, child.value);
        info =
        ParseReturnInfo {
            position: child.position,
            bits_read: info.bits_read + child.bits_read,
            packets_read: info.packets_read + 1,
            value,
        };
    }
    if info.packets_read == 0 {
        return Err(ErrorKind::MalformedArity);
    }
    Ok(info)
}

/// Decodes the children of a comparison from `position` on, while
/// `condition` says that another is due. The value is 1 where the first
/// child stands to the second as `boolean` says, and 0 where it does not.
/// There must be exactly two children: a third ends the decode as soon as it
/// is read, a missing second when `condition` is met.
pub fn parse_while_boolean<'a>(
    position: (&'a [u8], usize),
    boolean: PacketType,
    condition: LengthDescriptor,
) -> (r: Result<ParseReturnInfo<'a>, ErrorKind>)
    requires
        addressable(position.0@),
    ensures
        is_boolean(boolean) ==> agrees(
            r,
            position,
            decode_children(position.0@, position.1 as int, boolean, condition, 0, 0, 0),
        ),
        !is_boolean(boolean) ==> (r matches Err(e) && e == ErrorKind::UnknownType),
        r matches Ok(info) ==> info.position.1 <= total_bits(position.0@) && info.packets_read
            == 2 && 0 <= info.value <= 1,
    decreases total_bits(position.0@) - position.1, 1nat,
{
    match boolean {
        PacketType::GreaterThan | PacketType::LessThan | PacketType::Equal => {},
        _ => {
            return Err(ErrorKind::UnknownType);
        },
    }
    let mut info = ParseReturnInfo { position, bits_read: 0, packets_read: 0, value: 0 };
    while condition.more_due(&info)
        invariant
            addressable(position.0@),
            is_boolean(boolean),
            info.continues_from(position),
            info.packets_read <= info.bits_read,
            info.packets_read == 0 ==> info.bits_read == 0,
            info.packets_read <= 2,
            info.packets_read == 2 ==> 0 <= info.value <= 1,
            info.packets_read > 0 ==> info.position.1 <= total_bits(position.0@),
            decode_children(position.0@, position.1 as int, boolean, condition, 0, 0, 0)
                == decode_children(
                position.0@,
                info.position.1 as int,
                boolean,
                condition,
                info.packets_read as nat,
                info.bits_read as nat,
                info.value as int,
            ),
        decreases total_bits(position.0@) - info.position.1,
    {
        let child = match parse_packet_from_base(info.position) {
            Ok(child) => child,
            Err(e) => {
                return Err(e);
            },
        };
        let value = match decide(boolean, info.packets_read, info.value, child.value) {
            Ok(value) => value,
            Err(e) => {
                return Err(e);
            },
        };
        info =
        ParseReturnInfo {
            position: child.position,
            bits_read: info.bits_read + child.bits_read,
            packets_read: info.packets_read + 1,
            value,
        };
    }
    if info.packets_read != 2 {
        return Err(ErrorKind::MalformedArity);
    }
    Ok(info)
}

/// Decodes the payload of an operator packet at `position`, a buffer and a
/// bit offset into it: the length descriptor, then the children that it
/// bounds, reduced by `operator`. The bits read are the descriptor's and the
/// children's; the packets read are the children.
pub fn parse_operator<'a>(operator: PacketType, position: (&'a [u8], usize)) -> (r: Result<
    ParseReturnInfo<'a>,
    ErrorKind,
>)
    requires
        addressable(position.0@),
    ensures
        agrees(r, position, decode_operator(position.0@, position.1 as int, operator)),
        r matches Ok(info) ==> info.position.1 <= total_bits(position.0@) && info.packets_read
            >= 1 && info.bits_read >= 12,
    decreases total_bits(position.0@) - position.1, 0nat,
{
    if let PacketType::Literal = operator {
        return Err(ErrorKind::UnknownType);
    }
    let rest = BitCursor::from_position(position)?;
    let (next, condition) = LengthDescriptor::read(rest)?;
    let header_len = condition.header_len();
    let children = next.position();
    let return_info = match operator {
        PacketType::Sum | PacketType::Product => parse_while_calculative(
            children,
            operator,
            condition,
        ),
        PacketType::Minimum | PacketType::Maximum => parse_while_selective(
            children,
            operator,
            condition,
        ),
        _ => parse_while_boolean(children, operator, condition),
    }?;
    Ok(return_info.add_bits(header_len))
}

} // verus!
