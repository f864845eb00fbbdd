use packet_decoder::cursor::BitCursor;
use packet_decoder::error::ErrorKind;
use packet_decoder::protocols::base::{parse_packet_from_base, PacketType};
use packet_decoder::protocols::bit_len_operator::BitLenOperator;
use packet_decoder::protocols::literal::{parse_literal, Literal};
use packet_decoder::protocols::operator::{
    parse_operator, parse_while_boolean, parse_while_calculative, parse_while_selective,
};
use packet_decoder::protocols::operator_length_parser::{parse_operator_length, LengthDescriptor};
use packet_decoder::protocols::packet_num_operator::PacketNumOperator;
use packet_decoder::protocols::return_info::ParseReturnInfo;

/// A bit string under construction.
struct Bits(Vec<bool>);

impl Bits {
    fn new() -> Self {
        Bits(Vec::new())
    }

    fn push(mut self, value: u128, width: usize) -> Self {
        for i in (0..width).rev() {
            self.0.push((value >> i) & 1 == 1);
        }
        self
    }

    fn groups(mut self, value: u128, groups: usize) -> Self {
        for g in (0..groups).rev() {
            let nibble = if 4 * g >= 128 { 0 } else { (value >> (4 * g)) & 0xF };
            self = self.push(if g == 0 { 0 } else { 1 }, 1).push(nibble, 4);
        }
        self
    }

    fn literal(self, value: u128, groups: usize) -> Self {
        self.push(0, 3).push(4, 3).groups(value, groups)
    }

    fn counted(self, type_id: u128, count: u128) -> Self {
        self.push(0, 3).push(type_id, 3).push(1, 1).push(count, 11)
    }

    fn measured(self, type_id: u128, bits: u128) -> Self {
        self.push(0, 3).push(type_id, 3).push(0, 1).push(bits, 15)
    }

    fn len(&self) -> usize {
        self.0.len()
    }

    fn bytes(&self) -> Vec<u8> {
        let mut out = vec![0u8; (self.0.len() + 7) / 8];
        for (i, bit) in self.0.iter().enumerate() {
            if *bit {
                out[i / 8] |= 0x80 >> (i % 8);
            }
        }
        out
    }
}

fn groups_for(value: u128) -> usize {
    let mut groups = 1;
    while groups < 32 && (value >> (4 * groups)) != 0 {
        groups += 1;
    }
    groups
}

const SUM: u128 = 0;
const PRODUCT: u128 = 1;
const MINIMUM: u128 = 2;
const MAXIMUM: u128 = 3;
const GREATER: u128 = 5;
const LESS: u128 = 6;
const EQUAL: u128 = 7;

fn value_of(bits: &Bits) -> Result<i128, ErrorKind> {
    let bytes = bits.bytes();
    let info = parse_packet_from_base((&bytes, 0))?;
    assert_eq!(info.bits_read, bits.len());
    assert_eq!(info.position.1, bits.len());
    Ok(info.value)
}

#[test]
fn literal_payload_of_2021() {
    let bytes = [0xD2u8, 0xFE, 0x28];
    let (next, literal) = Literal::from_bytes((&bytes, 6)).unwrap();
    assert_eq!(literal, Literal { content: (2021, 15) });
    assert_eq!(next.1, 21);
    let (cursor, content) = Literal::read(BitCursor::from_position((&bytes, 6)).unwrap()).unwrap();
    assert_eq!(content, (2021, 15));
    assert_eq!(cursor.bit_offset, 21);
    let info = parse_literal((&bytes, 6)).unwrap();
    assert_eq!(info.value, 2021);
    assert_eq!(info.bits_read, 15);
    assert_eq!(info.packets_read, 1);
    assert_eq!(info.position.1, 21);
}

#[test]
fn literal_of_one_group() {
    let bits = Bits::new().literal(5, 1);
    assert_eq!(bits.len(), 11);
    assert_eq!(bits.bytes(), vec![0x10, 0xA0]);
    assert_eq!(value_of(&bits), Ok(5));
    let zero = Bits::new().literal(0, 1);
    assert_eq!(value_of(&zero), Ok(0));
}

#[test]
fn literal_round_trip() {
    let values: [u128; 12] = [
        0,
        1,
        15,
        16,
        2021,
        0xFFFF,
        0x1_0000,
        0xDEAD_BEEF,
        u64::MAX as u128,
        1 << 100,
        (1 << 126) + 12345,
        i128::MAX as u128,
    ];
    for value in values {
        let least = groups_for(value);
        for groups in [least, least + 1, least + 5] {
            let bits = Bits::new().groups(value, groups);
            let bytes = bits.bytes();
            let (next, literal) = Literal::from_bytes((&bytes, 0)).unwrap();
            assert_eq!(literal.content, (value, 5 * groups));
            assert_eq!(next.1, 5 * groups);
            let info = parse_literal((&bytes, 0)).unwrap();
            assert_eq!(info.value, value as i128);
            assert_eq!(info.bits_read, 5 * groups);
            let packet = Bits::new().literal(value, groups);
            assert_eq!(value_of(&packet), Ok(value as i128));
        }
    }
}

#[test]
fn literal_keeps_the_low_128_bits() {
    // 33 groups: a 1 in the nibble above bit 127, then zeros.
    let bits = Bits::new().push(1, 1).push(1, 4).groups(0, 32);
    let bytes = bits.bytes();
    let (next, literal) = Literal::from_bytes((&bytes, 0)).unwrap();
    assert_eq!(literal.content, (0, 165));
    assert_eq!(next.1, 165);
    // The same with 7 in the lowest nibble.
    let bits = Bits::new().push(1, 1).push(0xF, 4).groups(7, 32);
    let bytes = bits.bytes();
    let (_, literal) = Literal::from_bytes((&bytes, 0)).unwrap();
    assert_eq!(literal.content, (7, 165));
}

#[test]
fn literal_above_the_signed_range_is_negative() {
    let bits = Bits::new().groups(u128::MAX, 32);
    let bytes = bits.bytes();
    let (_, literal) = Literal::from_bytes((&bytes, 0)).unwrap();
    assert_eq!(literal.content, (u128::MAX, 160));
    assert_eq!(parse_literal((&bytes, 0)).unwrap().value, -1);
    let bits = Bits::new().groups(1 << 127, 32);
    let bytes = bits.bytes();
    assert_eq!(parse_literal((&bytes, 0)).unwrap().value, i128::MIN);
    let bits = Bits::new().groups((1 << 127) + 5, 32);
    let bytes = bits.bytes();
    assert_eq!(parse_literal((&bytes, 0)).unwrap().value, i128::MIN + 5);
}

#[test]
fn literal_without_a_last_group_is_truncated() {
    // Three groups, all flagged as not the last, and one bit behind them.
    let bits = Bits::new().push(1, 1).push(3, 4).push(1, 1).push(3, 4).push(1, 1).push(3, 4);
    let bytes = bits.bytes();
    assert_eq!(bytes.len(), 2);
    assert_eq!(Literal::from_bytes((&bytes, 0)).unwrap_err(), ErrorKind::Truncated);
    assert_eq!(parse_literal((&bytes, 0)).unwrap_err(), ErrorKind::Truncated);
    // One bit short of a whole group.
    let bytes = [0x00u8];
    assert_eq!(Literal::from_bytes((&bytes, 4)).unwrap_err(), ErrorKind::Truncated);
    assert!(Literal::from_bytes((&bytes, 3)).is_ok());
    assert_eq!(parse_literal((&bytes, 9)).unwrap_err(), ErrorKind::Truncated);
}

#[test]
fn total_bits_descriptor() {
    let bytes = [0x38u8, 0x00, 0x6F, 0x45, 0x29, 0x12, 0x00];
    let (next, descriptor) = BitLenOperator::from_bytes((&bytes, 6)).unwrap();
    assert_eq!(descriptor, BitLenOperator { bits: 27 });
    assert_eq!(next.1, 22);
    let rest = BitCursor::from_position((&bytes, 6)).unwrap();
    let (cursor, bits) = BitLenOperator::read(rest).unwrap();
    assert_eq!(bits, 27);
    assert_eq!(cursor.bit_offset, 22);
    let (cursor, limit) = LengthDescriptor::read(rest).unwrap();
    assert_eq!(limit, LengthDescriptor::TotalBits(27));
    assert_eq!(limit.header_len(), 16);
    assert_eq!(cursor.bit_offset, 22);
    assert_eq!(PacketNumOperator::from_bytes((&bytes, 6)).unwrap_err(), ErrorKind::InvalidLength);
    assert_eq!(PacketNumOperator::read(rest).unwrap_err(), ErrorKind::InvalidLength);
}

#[test]
fn packet_count_descriptor() {
    let bytes = [0xEEu8, 0x00, 0xD4, 0x0C, 0x82, 0x30, 0x60];
    let (next, descriptor) = PacketNumOperator::from_bytes((&bytes, 6)).unwrap();
    assert_eq!(descriptor, PacketNumOperator { packets: 3 });
    assert_eq!(next.1, 18);
    let rest = BitCursor::from_position((&bytes, 6)).unwrap();
    let (cursor, packets) = PacketNumOperator::read(rest).unwrap();
    assert_eq!(packets, 3);
    assert_eq!(cursor.bit_offset, 18);
    let (cursor, limit) = LengthDescriptor::read(rest).unwrap();
    assert_eq!(limit, LengthDescriptor::PacketCount(3));
    assert_eq!(limit.header_len(), 12);
    assert_eq!(cursor.bit_offset, 18);
    assert_eq!(BitLenOperator::from_bytes((&bytes, 6)).unwrap_err(), ErrorKind::InvalidLength);
    assert_eq!(BitLenOperator::read(rest).unwrap_err(), ErrorKind::InvalidLength);
}

#[test]
fn largest_lengths() {
    let bytes = Bits::new().push(0, 1).push(0x7FFF, 15).bytes();
    assert_eq!(BitLenOperator::from_bytes((&bytes, 0)).unwrap().1.bits, 0x7FFF);
    let bytes = Bits::new().push(1, 1).push(0x7FF, 11).bytes();
    assert_eq!(PacketNumOperator::from_bytes((&bytes, 0)).unwrap().1.packets, 0x7FF);
}

#[test]
fn descriptor_cut_short_is_truncated() {
    let empty: [u8; 0] = [];
    assert_eq!(BitLenOperator::from_bytes((&empty, 0)).unwrap_err(), ErrorKind::Truncated);
    assert_eq!(PacketNumOperator::from_bytes((&empty, 0)).unwrap_err(), ErrorKind::Truncated);
    assert_eq!(
        LengthDescriptor::read(BitCursor::new(&empty)).unwrap_err(),
        ErrorKind::Truncated
    );
    // Flag 0 and seven bits of length: eight more are missing.
    let bytes = [0x00u8];
    assert_eq!(BitLenOperator::from_bytes((&bytes, 0)).unwrap_err(), ErrorKind::Truncated);
    assert_eq!(
        LengthDescriptor::read(BitCursor::new(&bytes)).unwrap_err(),
        ErrorKind::Truncated
    );
    // The flag is tested before the length is looked for.
    assert_eq!(PacketNumOperator::from_bytes((&bytes, 0)).unwrap_err(), ErrorKind::InvalidLength);
    let bytes = [0x80u8];
    assert_eq!(PacketNumOperator::from_bytes((&bytes, 0)).unwrap_err(), ErrorKind::Truncated);
    assert_eq!(BitLenOperator::from_bytes((&bytes, 0)).unwrap_err(), ErrorKind::InvalidLength);
    // Twelve bits are enough for a count, not for a length.
    let bytes = [0x80u8, 0x30];
    assert_eq!(PacketNumOperator::from_bytes((&bytes, 0)).unwrap().1.packets, 3);
    assert_eq!(PacketNumOperator::from_bytes((&bytes, 4)).unwrap_err(), ErrorKind::InvalidLength);
    assert_eq!(PacketNumOperator::from_bytes((&bytes, 10)).unwrap_err(), ErrorKind::Truncated);
    assert_eq!(BitLenOperator::from_bytes((&bytes, 1)).unwrap_err(), ErrorKind::Truncated);
    assert_eq!(BitLenOperator::from_bytes((&bytes, 4)).unwrap_err(), ErrorKind::Truncated);
    assert_eq!(BitLenOperator::from_bytes((&bytes, 17)).unwrap_err(), ErrorKind::Truncated);
}

#[test]
fn length_of_any_width() {
    let bytes = [0b1101_0110u8, 0b1000_0000, 0x00];
    let rest = BitCursor::new(&bytes);
    let (next, length) = parse_operator_length(rest, true, 1).unwrap();
    assert_eq!((next.bit_offset, length), (2, 1));
    let (next, length) = parse_operator_length(rest, true, 4).unwrap();
    assert_eq!((next.bit_offset, length), (5, 0b1010));
    let (next, length) = parse_operator_length(rest, true, 16).unwrap();
    assert_eq!((next.bit_offset, length), (17, 0b1010_1101_0000_0000));
    assert_eq!(parse_operator_length(rest, false, 4).unwrap_err(), ErrorKind::InvalidLength);
    let rest = BitCursor::from_position((&bytes, 2)).unwrap();
    let (next, length) = parse_operator_length(rest, false, 3).unwrap();
    assert_eq!((next.bit_offset, length), (6, 0b101));
    let rest = BitCursor::from_position((&bytes, 9)).unwrap();
    assert_eq!(parse_operator_length(rest, false, 15).unwrap_err(), ErrorKind::Truncated);
    assert_eq!(parse_operator_length(rest, false, 14).unwrap().1, 0);
    let rest = BitCursor::from_position((&bytes, 24)).unwrap();
    assert_eq!(parse_operator_length(rest, false, 1).unwrap_err(), ErrorKind::Truncated);
}

#[test]
fn limit_on_children() {
    let bytes = [0u8; 4];
    let so_far = |bits_read: usize, packets_read: usize| ParseReturnInfo {
        position: (&bytes[..], bits_read),
        bits_read,
        packets_read,
        value: 0,
    };
    let by_bits = LengthDescriptor::TotalBits(22);
    assert!(by_bits.more_due(&so_far(0, 0)));
    assert!(by_bits.more_due(&so_far(21, 9)));
    assert!(!by_bits.more_due(&so_far(22, 0)));
    assert!(!by_bits.more_due(&so_far(23, 0)));
    let by_count = LengthDescriptor::PacketCount(2);
    assert!(by_count.more_due(&so_far(100, 0)));
    assert!(by_count.more_due(&so_far(0, 1)));
    assert!(!by_count.more_due(&so_far(0, 2)));
    assert!(!LengthDescriptor::TotalBits(0).more_due(&so_far(0, 0)));
    assert!(!LengthDescriptor::PacketCount(0).more_due(&so_far(0, 0)));
}

#[test]
fn add_bits_counts_more_bits() {
    let bytes = [0u8; 4];
    let info =
        ParseReturnInfo { position: (&bytes[..], 17), bits_read: 11, packets_read: 3, value: -9 };
    let more = info.add_bits(6);
    assert_eq!(more.bits_read, 17);
    assert_eq!(more.position.1, 17);
    assert_eq!(more.packets_read, 3);
    assert_eq!(more.value, -9);
    let same = more.add_bits(0);
    assert_eq!(same.bits_read, 17);
}

#[test]
fn operator_payload() {
    // The payload of the less-than packet over 10 and 20, behind its header.
    let bytes = [0x38u8, 0x00, 0x6F, 0x45, 0x29, 0x12, 0x00];
    let info = parse_operator(PacketType::LessThan, (&bytes, 6)).unwrap();
    assert_eq!(info.value, 1);
    assert_eq!(info.bits_read, 16 + 27);
    assert_eq!(info.packets_read, 2);
    assert_eq!(info.position.1, 49);
    // The same children under other operators.
    assert_eq!(parse_operator(PacketType::GreaterThan, (&bytes, 6)).unwrap().value, 0);
    assert_eq!(parse_operator(PacketType::Equal, (&bytes, 6)).unwrap().value, 0);
    assert_eq!(parse_operator(PacketType::Sum, (&bytes, 6)).unwrap().value, 30);
    assert_eq!(parse_operator(PacketType::Product, (&bytes, 6)).unwrap().value, 200);
    assert_eq!(parse_operator(PacketType::Minimum, (&bytes, 6)).unwrap().value, 10);
    assert_eq!(parse_operator(PacketType::Maximum, (&bytes, 6)).unwrap().value, 20);
    // The payload of the maximum packet over 1, 2 and 3.
    let bytes = [0xEEu8, 0x00, 0xD4, 0x0C, 0x82, 0x30, 0x60];
    let info = parse_operator(PacketType::Maximum, (&bytes, 6)).unwrap();
    assert_eq!(info.value, 3);
    assert_eq!(info.bits_read, 12 + 33);
    assert_eq!(info.packets_read, 3);
    assert_eq!(info.position.1, 51);
}

#[test]
fn operator_payload_of_a_literal_is_unknown() {
    let bytes = [0x38u8, 0x00, 0x6F, 0x45, 0x29, 0x12, 0x00];
    assert_eq!(
        parse_operator(PacketType::Literal, (&bytes, 6)).unwrap_err(),
        ErrorKind::UnknownType
    );
    let empty: [u8; 0] = [];
    assert_eq!(
        parse_operator(PacketType::Literal, (&empty, 0)).unwrap_err(),
        ErrorKind::UnknownType
    );
    assert_eq!(parse_operator(PacketType::Sum, (&empty, 0)).unwrap_err(), ErrorKind::Truncated);
}

#[test]
fn children_of_a_calculation() {
    let bits = Bits::new().literal(6, 1).literal(9, 1).literal(2, 3);
    let bytes = bits.bytes();
    let two = LengthDescriptor::PacketCount(2);
    let info = parse_while_calculative((&bytes, 0), PacketType::Sum, two).unwrap();
    assert_eq!((info.value, info.bits_read, info.packets_read, info.position.1), (15, 22, 2, 22));
    let info = parse_while_calculative((&bytes, 0), PacketType::Product, two).unwrap();
    assert_eq!((info.value, info.bits_read, info.packets_read), (54, 22, 2));
    let all = LengthDescriptor::TotalBits(43);
    let info = parse_while_calculative((&bytes, 0), PacketType::Product, all).unwrap();
    assert_eq!((info.value, info.bits_read, info.packets_read), (108, 43, 3));
    let one = LengthDescriptor::PacketCount(1);
    let info = parse_while_calculative((&bytes, 11), PacketType::Product, one).unwrap();
    assert_eq!((info.value, info.bits_read, info.packets_read, info.position.1), (9, 11, 1, 22));
    for other in [
        PacketType::Literal,
        PacketType::Minimum,
        PacketType::Maximum,
        PacketType::GreaterThan,
        PacketType::LessThan,
        PacketType::Equal,
    ] {
        assert_eq!(
            parse_while_calculative((&bytes, 0), other, two).unwrap_err(),
            ErrorKind::UnknownType
        );
    }
}

#[test]
fn children_of_a_selection() {
    let bits = Bits::new().literal(7, 1).literal(3, 2).literal(9, 1);
    let bytes = bits.bytes();
    let three = LengthDescriptor::PacketCount(3);
    let info = parse_while_selective((&bytes, 0), PacketType::Minimum, three).unwrap();
    assert_eq!((info.value, info.bits_read, info.packets_read, info.position.1), (3, 38, 3, 38));
    let info = parse_while_selective((&bytes, 0), PacketType::Maximum, three).unwrap();
    assert_eq!((info.value, info.bits_read, info.packets_read), (9, 38, 3));
    let first = LengthDescriptor::TotalBits(1);
    let info = parse_while_selective((&bytes, 0), PacketType::Maximum, first).unwrap();
    assert_eq!((info.value, info.bits_read, info.packets_read), (7, 11, 1));
    for other in [
        PacketType::Literal,
        PacketType::Sum,
        PacketType::Product,
        PacketType::GreaterThan,
        PacketType::LessThan,
        PacketType::Equal,
    ] {
        assert_eq!(
            parse_while_selective((&bytes, 0), other, three).unwrap_err(),
            ErrorKind::UnknownType
        );
    }
}

#[test]
fn children_of_a_comparison() {
    let bits = Bits::new().literal(7, 1).literal(3, 2).literal(3, 1);
    let bytes = bits.bytes();
    let two = LengthDescriptor::PacketCount(2);
    let info = parse_while_boolean((&bytes, 0), PacketType::GreaterThan, two).unwrap();
    assert_eq!((info.value, info.bits_read, info.packets_read, info.position.1), (1, 27, 2, 27));
    assert_eq!(parse_while_boolean((&bytes, 0), PacketType::LessThan, two).unwrap().value, 0);
    assert_eq!(parse_while_boolean((&bytes, 0), PacketType::Equal, two).unwrap().value, 0);
    assert_eq!(parse_while_boolean((&bytes, 11), PacketType::Equal, two).unwrap().value, 1);
    assert_eq!(parse_while_boolean((&bytes, 11), PacketType::GreaterThan, two).unwrap().value, 0);
    assert_eq!(parse_while_boolean((&bytes, 11), PacketType::LessThan, two).unwrap().value, 0);
    for other in [
        PacketType::Literal,
        PacketType::Sum,
        PacketType::Product,
        PacketType::Minimum,
        PacketType::Maximum,
    ] {
        assert_eq!(
            parse_while_boolean((&bytes, 0), other, two).unwrap_err(),
            ErrorKind::UnknownType
        );
    }
}

#[test]
fn comparison_needs_exactly_two_children() {
    for operator in [GREATER, LESS, EQUAL] {
        let none = Bits::new().counted(operator, 0);
        assert_eq!(value_of(&none), Err(ErrorKind::MalformedArity));
        let one = Bits::new().counted(operator, 1).literal(1, 1);
        assert_eq!(value_of(&one), Err(ErrorKind::MalformedArity));
        let two = Bits::new().counted(operator, 2).literal(1, 1).literal(1, 1);
        assert!(value_of(&two).is_ok());
        let three = Bits::new().counted(operator, 3).literal(1, 1).literal(1, 1).literal(1, 1);
        assert_eq!(value_of(&three), Err(ErrorKind::MalformedArity));
        let none = Bits::new().measured(operator, 0);
        assert_eq!(value_of(&none), Err(ErrorKind::MalformedArity));
        let one = Bits::new().measured(operator, 11).literal(1, 1);
        assert_eq!(value_of(&one), Err(ErrorKind::MalformedArity));
        let two = Bits::new().measured(operator, 22).literal(1, 1).literal(1, 1);
        assert!(value_of(&two).is_ok());
        let three = Bits::new().measured(operator, 33).literal(1, 1).literal(1, 1).literal(1, 1);
        assert_eq!(value_of(&three), Err(ErrorKind::MalformedArity));
    }
}

#[test]
fn comparison_children_by_limit() {
    let bits = Bits::new().literal(1, 1).literal(2, 1).literal(3, 1);
    let bytes = bits.bytes();
    for operator in [PacketType::GreaterThan, PacketType::LessThan, PacketType::Equal] {
        for count in [0u16, 1, 3] {
            let limit = LengthDescriptor::PacketCount(count);
            assert_eq!(
                parse_while_boolean((&bytes, 0), operator, limit).unwrap_err(),
                ErrorKind::MalformedArity
            );
        }
        // A third child that cannot be read ends the decode as truncated.
        let limit = LengthDescriptor::PacketCount(3);
        assert_eq!(
            parse_while_boolean((&bytes, 11), operator, limit).unwrap_err(),
            ErrorKind::Truncated
        );
    }
}

#[test]
fn other_operators_need_a_child() {
    for operator in [SUM, PRODUCT, MINIMUM, MAXIMUM] {
        let none = Bits::new().counted(operator, 0);
        assert_eq!(value_of(&none), Err(ErrorKind::MalformedArity));
        let none = Bits::new().measured(operator, 0);
        assert_eq!(value_of(&none), Err(ErrorKind::MalformedArity));
        let one = Bits::new().counted(operator, 1).literal(42, 2);
        assert_eq!(value_of(&one), Ok(42));
        let one = Bits::new().measured(operator, 16).literal(42, 2);
        assert_eq!(value_of(&one), Ok(42));
    }
}

#[test]
fn children_may_run_past_the_total() {
    // 20 bits are asked for; two children of 11 bits are read.
    let bits = Bits::new().measured(SUM, 20).literal(1, 1).literal(2, 1);
    assert_eq!(bits.len(), 44);
    assert_eq!(value_of(&bits), Ok(3));
    // 22 bits are exactly two children: a third is not read.
    let bits = Bits::new().measured(SUM, 22).literal(1, 1).literal(2, 1);
    let mut bytes = bits.bytes();
    bytes.extend_from_slice(&Bits::new().literal(4, 1).bytes());
    let info = parse_packet_from_base((&bytes, 0)).unwrap();
    assert_eq!((info.value, info.bits_read, info.packets_read), (3, 44, 2));
}

#[test]
fn sum_overflows() {
    let big: u128 = 1 << 126;
    let bits = Bits::new().counted(SUM, 2).literal(big, 32).literal(big, 32);
    assert_eq!(value_of(&bits), Err(ErrorKind::Overflow));
    let bits = Bits::new().counted(SUM, 2).literal(big, 32).literal(big - 1, 32);
    assert_eq!(value_of(&bits), Ok(i128::MAX));
    // Two negative values, from literals above the signed range.
    let low: u128 = 1 << 127;
    let bits = Bits::new().counted(SUM, 2).literal(low, 32).literal(u128::MAX, 32);
    assert_eq!(value_of(&bits), Err(ErrorKind::Overflow));
    let bits = Bits::new().counted(SUM, 2).literal(low, 32).literal(0, 1);
    assert_eq!(value_of(&bits), Ok(i128::MIN));
    // The overflow comes before a child behind it that cannot be read.
    let bits = Bits::new().counted(SUM, 3).literal(big, 32).literal(big, 32);
    let bytes = bits.bytes();
    assert_eq!(parse_packet_from_base((&bytes, 0)).unwrap_err(), ErrorKind::Overflow);
}

#[test]
fn product_overflows() {
    let big: u128 = 1 << 64;
    let bits = Bits::new().counted(PRODUCT, 2).literal(big, 17).literal(big, 17);
    assert_eq!(value_of(&bits), Err(ErrorKind::Overflow));
    let bits = Bits::new().counted(PRODUCT, 2).literal(big, 17).literal(big >> 2, 16);
    assert_eq!(value_of(&bits), Ok(1 << 126));
    let bits = Bits::new().counted(PRODUCT, 2).literal(u128::MAX, 32).literal(1 << 127, 32);
    assert_eq!(value_of(&bits), Err(ErrorKind::Overflow));
    let bits = Bits::new().counted(PRODUCT, 2).literal(1 << 127, 32).literal(1, 1);
    assert_eq!(value_of(&bits), Ok(i128::MIN));
    let bits = Bits::new().counted(PRODUCT, 3).literal(big, 17).literal(big, 17).literal(0, 1);
    assert_eq!(value_of(&bits), Err(ErrorKind::Overflow));
}

#[test]
fn selection_over_negative_values() {
    let bits = Bits::new().counted(MINIMUM, 3).literal(5, 1).literal(u128::MAX, 32).literal(0, 1);
    assert_eq!(value_of(&bits), Ok(-1));
    let bits = Bits::new().counted(MAXIMUM, 2).literal(u128::MAX, 32).literal(1 << 127, 32);
    assert_eq!(value_of(&bits), Ok(-1));
    let bits = Bits::new().counted(GREATER, 2).literal(0, 1).literal(u128::MAX, 32);
    assert_eq!(value_of(&bits), Ok(1));
}

#[test]
fn nested_operators() {
    // (1 + 3) * max(4, 2) = 16, and 16 < 17.
    let sum = Bits::new().counted(SUM, 2).literal(1, 1).literal(3, 1);
    let max = Bits::new().measured(MAXIMUM, 22).literal(4, 1).literal(2, 1);
    let mut product = Bits::new().counted(PRODUCT, 2);
    product.0.extend_from_slice(&sum.0);
    product.0.extend_from_slice(&max.0);
    assert_eq!(value_of(&product), Ok(16));
    let mut less = Bits::new().measured(LESS, (product.len() + 16) as u128);
    less.0.extend_from_slice(&product.0);
    less = less.literal(17, 2);
    assert_eq!(value_of(&less), Ok(1));
    let bytes = less.bytes();
    let info = parse_packet_from_base((&bytes, 0)).unwrap();
    assert_eq!(info.packets_read, 2);
    assert_eq!(info.bits_read, less.len());
}

#[test]
fn child_error_ends_the_whole_decode() {
    // A comparison of three children inside a sum.
    let inner = Bits::new().counted(EQUAL, 3).literal(1, 1).literal(1, 1).literal(1, 1);
    let mut outer = Bits::new().counted(SUM, 2).literal(1, 1);
    outer.0.extend_from_slice(&inner.0);
    assert_eq!(value_of(&outer), Err(ErrorKind::MalformedArity));
    // A child that is cut short.
    let outer = Bits::new().counted(SUM, 2).literal(1, 1);
    assert_eq!(value_of(&outer), Err(ErrorKind::Truncated));
}
