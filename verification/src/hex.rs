//! Hexadecimal text to bytes: two digits a byte, the high nibble first.

use vstd::prelude::*;
use vstd::string::StringSliceAdditionalSpecFns;

verus! {

/// Why a text is not the hexadecimal form of a byte sequence.
#[derive(Clone, Copy, Debug, PartialEq, Eq, Structural)]
pub enum HexError {
    /// A pair holds a byte that is no hexadecimal digit.
    InvalidDigit,
    /// Every pair is of digits, and one byte is left over behind them.
    OddLength,
}

/// The value of a hexadecimal digit in ASCII, in either case.
pub open spec fn hex_digit(c: u8) -> Option<u8> {
    if 0x30 <= c <= 0x39 {
        Some((c - 0x30) as u8)
    } else if 0x41 <= c <= 0x46 {
        Some((c - 0x41 + 10) as u8)
    } else if 0x61 <= c <= 0x66 {
        Some((c - 0x61 + 10) as u8)
    } else {
        None
    }
}

/// Both bytes of pair `i` of `text` are hexadecimal digits.
pub open spec fn pair_is_hex(text: Seq<u8>, i: int) -> bool {
    hex_digit(text[2 * i]) is Some && hex_digit(text[2 * i + 1]) is Some
}

/// The byte that pair `i` of `text` stands for.
pub open spec fn pair_value(text: Seq<u8>, i: int) -> u8 {
    (16 * hex_digit(text[2 * i]).unwrap() + hex_digit(text[2 * i + 1]).unwrap()) as u8
}

/// The bytes that `text` stands for: one for each pair of digits. Pairs are
/// taken from the front; the first that is not of digits makes the text
/// invalid, and so does a byte left over behind the last pair.
pub open spec fn hex_decoding(text: Seq<u8>) -> Result<Seq<u8>, HexError> {
    if exists|i: int| 0 <= i < text.len() / 2 && !pair_is_hex(text, i) {
        Err(HexError::InvalidDigit)
    } else if text.len() % 2 == 1 {
        Err(HexError::OddLength)
    } else {
        Ok(Seq::new(text.len() / 2, |i: int| pair_value(text, i)))
    }
}

/// The value of a hexadecimal digit in ASCII, in either case.
fn digit_value(c: u8) -> (r: Option<u8>)
    ensures
        r == hex_digit(c),
{
    if 0x30 <= c && c <= 0x39 {
        Some(c - 0x30)
    } else if 0x41 <= c && c <= 0x46 {
        Some(c - 0x41 + 10)
    } else if 0x61 <= c && c <= 0x66 {
        Some(c - 0x61 + 10)
    } else {
        None
    }
}

/// Decodes hexadecimal text into the bytes that it stands for.
pub fn decode_hex(s: &str) -> (r: Result<Vec<u8>, HexError>)
    ensures
        match r {
            Ok(bytes) => hex_decoding(s.spec_bytes()) == Ok::<Seq<u8>, HexError>(bytes@),
            Err(e) => hex_decoding(s.spec_bytes()) == Err::<Seq<u8>, HexError>(e),
        },
{
    let text = s.as_bytes();
    let pairs = text.len() / 2;
    let mut bytes: Vec<u8> = Vec::new();
    let mut i: usize = 0;
    while i < pairs
        invariant
            text@ == s.spec_bytes(),
            pairs == text@.len() / 2,
            i <= pairs,
            bytes@.len() == i,
            forall|j: int| 0 <= j < i ==> pair_is_hex(text@, j),
            forall|j: int| 0 <= j < i ==> bytes@[j] == pair_value(text@, j),
        decreases pairs - i,
    {
        let high = digit_value(text[2 * i]);
        let low = digit_value(text[2 * i + 1]);
        match (high, low) {
            (Some(high), Some(low)) => {
                bytes.push(16 * high + low);
            },
            _ => {
                assert(!pair_is_hex(text@, i as int));
                return Err(HexError::InvalidDigit);
            },
        }
        i = i + 1;
    }
    if text.len() % 2 == 1 {
        return Err(HexError::OddLength);
    }
    assert(bytes@ =~= Seq::new(text@.len() / 2, |j: int| pair_value(text@, j)));
    Ok(bytes)
}

} // verus!
