use packet_decoder::bits::is_addressable;
use packet_decoder::cursor::BitCursor;
use packet_decoder::error::ErrorKind;

#[test]
fn small_buffers_are_addressable() {
    assert!(is_addressable(&[]));
    assert!(is_addressable(&[0u8; 1024]));
}

#[test]
fn new_cursor_is_at_the_start() {
    let bytes = [0xA5u8, 0x5A];
    let cursor = BitCursor::new(&bytes);
    assert_eq!(cursor.bit_offset, 0);
    assert_eq!(cursor.remaining(), 16);
    assert_eq!(cursor.position().1, 0);
    assert_eq!(cursor.position().0, &bytes);
}

#[test]
fn cursor_from_a_position() {
    let bytes = [0xA5u8, 0x5A];
    let cursor = BitCursor::from_position((&bytes, 16)).unwrap();
    assert_eq!(cursor.remaining(), 0);
    let cursor = BitCursor::from_position((&bytes, 5)).unwrap();
    assert_eq!(cursor.remaining(), 11);
    assert_eq!(BitCursor::from_position((&bytes, 17)).unwrap_err(), ErrorKind::Truncated);
}

#[test]
fn peek_bit_reads_most_significant_bit_first() {
    // 0xA5 is 1010 0101.
    let bytes = [0xA5u8];
    let expected = [true, false, true, false, false, true, false, true];
    for (i, bit) in expected.iter().enumerate() {
        let cursor = BitCursor::from_position((&bytes, i)).unwrap();
        assert_eq!(cursor.peek_bit(), Ok(*bit));
    }
}

#[test]
fn peek_bit_does_not_move() {
    let bytes = [0x80u8];
    let cursor = BitCursor::new(&bytes);
    assert_eq!(cursor.peek_bit(), Ok(true));
    assert_eq!(cursor.peek_bit(), Ok(true));
    assert_eq!(cursor.bit_offset, 0);
}

#[test]
fn peek_bit_at_the_end_is_truncated() {
    let bytes = [0xFFu8];
    let cursor = BitCursor::from_position((&bytes, 8)).unwrap();
    assert_eq!(cursor.peek_bit(), Err(ErrorKind::Truncated));
    let empty: [u8; 0] = [];
    assert_eq!(BitCursor::new(&empty).peek_bit(), Err(ErrorKind::Truncated));
}

#[test]
fn read_bits_is_big_endian() {
    // 0xD2 is 110 100 10: version 6, type 4.
    let bytes = [0xD2u8, 0xFE, 0x28];
    let cursor = BitCursor::new(&bytes);
    let (cursor, version) = cursor.read_bits(3).unwrap();
    assert_eq!(version, 6);
    assert_eq!(cursor.bit_offset, 3);
    let (cursor, type_id) = cursor.read_bits(3).unwrap();
    assert_eq!(type_id, 4);
    assert_eq!(cursor.bit_offset, 6);
    let (cursor, group) = cursor.read_bits(5).unwrap();
    assert_eq!(group, 0b10111);
    assert_eq!(cursor.bit_offset, 11);
    assert_eq!(cursor.remaining(), 13);
}

#[test]
fn read_bits_across_bytes() {
    let bytes = [0xF2u8, 0x01, 0x8F];
    let cursor = BitCursor::from_position((&bytes, 4)).unwrap();
    let (next, value) = cursor.read_bits(16).unwrap();
    assert_eq!(value, 0x2018);
    assert_eq!(next.bit_offset, 20);
    let (_, all) = BitCursor::new(&bytes).read_bits(24).unwrap();
    assert_eq!(all, 0xF2018F);
}

#[test]
fn read_bits_one_at_a_time() {
    let bytes = [0b0110_0000u8];
    let cursor = BitCursor::new(&bytes);
    let (cursor, first) = cursor.read_bits(1).unwrap();
    let (cursor, second) = cursor.read_bits(1).unwrap();
    let (cursor, third) = cursor.read_bits(1).unwrap();
    assert_eq!((first, second, third), (0, 1, 1));
    assert_eq!(cursor.bit_offset, 3);
}

#[test]
fn read_bits_widest() {
    let mut bytes = [0u8; 17];
    bytes[0] = 0x0F;
    for byte in bytes.iter_mut().skip(1) {
        *byte = 0xFF;
    }
    bytes[16] = 0xF0;
    let cursor = BitCursor::from_position((&bytes, 4)).unwrap();
    let (next, value) = cursor.read_bits(128).unwrap();
    assert_eq!(value, u128::MAX);
    assert_eq!(next.bit_offset, 132);
    let (_, value) = BitCursor::new(&bytes).read_bits(128).unwrap();
    assert_eq!(value, u128::MAX >> 4);
}

#[test]
fn read_bits_past_the_end_is_truncated() {
    let bytes = [0xFFu8];
    let cursor = BitCursor::new(&bytes);
    assert!(cursor.read_bits(8).is_ok());
    assert_eq!(cursor.read_bits(9).unwrap_err(), ErrorKind::Truncated);
    let (cursor, _) = cursor.read_bits(5).unwrap();
    assert!(cursor.read_bits(3).is_ok());
    assert_eq!(cursor.read_bits(4).unwrap_err(), ErrorKind::Truncated);
    let (cursor, _) = cursor.read_bits(3).unwrap();
    assert_eq!(cursor.read_bits(1).unwrap_err(), ErrorKind::Truncated);
}

#[test]
fn reading_leaves_the_old_cursor_as_it_was() {
    let bytes = [0x12u8, 0x34];
    let cursor = BitCursor::new(&bytes);
    let (next, _) = cursor.read_bits(8).unwrap();
    assert_eq!(cursor.bit_offset, 0);
    assert_eq!(next.bit_offset, 8);
    assert_eq!(cursor.read_bits(8).unwrap().1, 0x12);
    assert_eq!(next.read_bits(8).unwrap().1, 0x34);
}

#[test]
fn eight_bits_at_a_byte_boundary_are_the_byte() {
    let bytes: Vec<u8> = (0..=255).collect();
    for (index, byte) in bytes.iter().enumerate() {
        let cursor = BitCursor::from_position((&bytes, 8 * index)).unwrap();
        let (next, value) = cursor.read_bits(8).unwrap();
        assert_eq!(value, *byte as u128);
        assert_eq!(next.bit_offset, 8 * index + 8);
    }
}

#[test]
fn bits_one_by_one_add_up_to_the_run() {
    let bytes = [0x9Cu8, 0x01, 0x41, 0x08, 0x02, 0x50, 0x32, 0x0F];
    for start in 0..40 {
        for width in 1..=24 {
            let cursor = BitCursor::from_position((&bytes, start)).unwrap();
            let (_, run) = cursor.read_bits(width).unwrap();
            let mut sum: u128 = 0;
            for i in 0..width {
                let at = BitCursor::from_position((&bytes, start + i)).unwrap();
                sum = 2 * sum + at.peek_bit().unwrap() as u128;
            }
            assert_eq!(run, sum);
        }
    }
}
