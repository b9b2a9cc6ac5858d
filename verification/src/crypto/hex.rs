//! Bytes as text: two hexadecimal digits for each byte, high half first.

use vstd::prelude::*;
use vstd::utf8::{
    decode_utf8, encode_utf8, encode_utf8_decode_utf8, is_ascii_chars, is_ascii_chars_encode_utf8,
};
use crate::utf8::{lemma_ascii_bytes_are_text, string_from_utf8};

verus! {

/// The lower-case digit for a half byte.
pub open spec fn hex_char(nibble: u8) -> char {
    if nibble < 10 {
        ((48 + nibble) as u8) as char
    } else {
        ((87 + nibble) as u8) as char
    }
}

/// The value of a hexadecimal digit of either case; other characters have none.
pub open spec fn hex_value(digit: char) -> Option<u8> {
    if '0' <= digit <= '9' {
        Some((digit as u8 - 48) as u8)
    } else if 'a' <= digit <= 'f' {
        Some((digit as u8 - 87) as u8)
    } else if 'A' <= digit <= 'F' {
        Some((digit as u8 - 55) as u8)
    } else {
        None
    }
}

/// The text that spells `bytes` in lower-case hexadecimal.
pub open spec fn hex_text(bytes: Seq<u8>) -> Seq<char> {
    Seq::new(
        2 * bytes.len(),
        |i: int|
            if i % 2 == 0 {
                hex_char(bytes[i / 2] / 16)
            } else {
                hex_char(bytes[i / 2] % 16)
            },
    )
}

/// Whether the text is made of an even number of hexadecimal digits.
pub open spec fn is_hex(text: Seq<char>) -> bool {
    &&& text.len() % 2 == 0
    &&& forall|i: int| 0 <= i < text.len() ==> hex_value(#[trigger] text[i]) is Some
}

/// The bytes that hexadecimal text spells.
pub open spec fn hex_bytes(text: Seq<char>) -> Seq<u8> {
    Seq::new(
        text.len() / 2,
        |i: int| (hex_value(text[2 * i])->0 * 16 + hex_value(text[2 * i + 1])->0) as u8,
    )
}

/// The text form of bytes spells those bytes.
pub proof fn lemma_hex_round_trip(bytes: Seq<u8>)
    ensures
        is_hex(hex_text(bytes)),
        hex_bytes(hex_text(bytes)) == bytes,
{
    let text = hex_text(bytes);
    assert forall|i: int| 0 <= i < text.len() implies hex_value(#[trigger] text[i]) is Some by {
        lemma_hex_char_value((bytes[i / 2] / 16) as u8);
        lemma_hex_char_value((bytes[i / 2] % 16) as u8);
    }
    assert forall|i: int| 0 <= i < bytes.len() implies hex_bytes(text)[i] == bytes[i] by {
        lemma_hex_char_value((bytes[i] / 16) as u8);
        lemma_hex_char_value((bytes[i] % 16) as u8);
        assert(text[2 * i] == hex_char(bytes[(2 * i) / 2] / 16));
        assert(text[2 * i + 1] == hex_char(bytes[(2 * i + 1) / 2] % 16));
    }
    assert(hex_bytes(text) =~= bytes);
}

/// The digit for a half byte has that half byte as its value.
pub proof fn lemma_hex_char_value(nibble: u8)
    requires
        nibble < 16,
    ensures
        hex_value(hex_char(nibble)) == Some(nibble),
        hex_char(nibble) as u8 == (if nibble < 10 {
            48 + nibble
        } else {
            87 + nibble
        }),
        hex_char(nibble) <= '\u{7f}',
{
}

/// The byte of the lower-case digit for a half byte.
fn digit_of(nibble: u8) -> (digit: u8)
    requires
        nibble < 16,
    ensures
        digit as char == hex_char(nibble),
        digit < 128,
{
    if nibble < 10 {
        48 + nibble
    } else {
        87 + nibble
    }
}

/// The value of the digit that a byte of text stands for, if it is one.
fn value_of(digit: u8) -> (value: Option<u8>)
    ensures
        digit < 128 ==> value == hex_value(digit as char),
        digit >= 128 ==> value is None,
        value matches Some(v) ==> v < 16,
{
    if 48 <= digit && digit <= 57 {
        Some(digit - 48)
    } else if 97 <= digit && digit <= 102 {
        Some(digit - 87)
    } else if 65 <= digit && digit <= 70 {
        Some(digit - 55)
    } else {
        None
    }
}

/// Spells `bytes` in lower-case hexadecimal.
pub fn encode_hex(bytes: &[u8]) -> (text: String)
    ensures
        text@ == hex_text(bytes@),
{
    let mut digits: Vec<u8> = Vec::new();
    let mut i: usize = 0;
    while i < bytes.len()
        invariant
            i <= bytes.len(),
            digits@.len() == 2 * i,
            forall|j: int| 0 <= j < digits@.len() ==> #[trigger] digits@[j] < 128,
            forall|j: int|
                0 <= j < digits@.len() ==> (#[trigger] digits@[j]) as char == hex_text(bytes@)[j],
        decreases bytes.len() - i,
    {
        let high = digit_of(bytes[i] / 16);
        let low = digit_of(bytes[i] % 16);
        digits.push(high);
        digits.push(low);
        i += 1;
    }
    proof {
        lemma_ascii_bytes_are_text(digits@);
        assert(decode_utf8(digits@) =~= hex_text(bytes@));
    }
    let ghost spelled = digits@;
    let text = string_from_utf8(digits).unwrap();
    proof {
        encode_utf8_decode_utf8(text@);
        assert(text@ == decode_utf8(spelled));
    }
    text
}

/// Reads hexadecimal text of either case back into bytes; there are none
/// if the text has an odd length or a character that is no digit.
pub fn decode_hex(text: &str) -> (bytes: Option<Vec<u8>>)
    ensures
        match bytes {
            Some(bytes) => is_hex(text@) && bytes@ == hex_bytes(text@),
            None => !is_hex(text@),
        },
{
    let digits = text.as_bytes();
    proof {
        encode_utf8_decode_utf8(text@);
        if is_hex(text@) {
            assert(is_ascii_chars(text@));
            is_ascii_chars_encode_utf8(text@);
        }
    }
    if digits.len() % 2 != 0 {
        return None;
    }
    let mut bytes: Vec<u8> = Vec::new();
    let mut i: usize = 0;
    while i < digits.len() / 2
        invariant
            i <= digits.len() / 2,
            digits.len() % 2 == 0,
            digits@ == encode_utf8(text@),
            decode_utf8(digits@) == text@,
            is_hex(text@) ==> digits@.len() == text@.len() && forall|j: int|
                0 <= j < text@.len() ==> (#[trigger] text@[j]) as u8 == digits@[j],
            bytes@.len() == i,
            forall|j: int| 0 <= j < 2 * i ==> #[trigger] digits@[j] < 128,
            forall|j: int|
                0 <= j < 2 * i ==> hex_value((#[trigger] digits@[j]) as char) is Some,
            forall|j: int|
                0 <= j < i ==> #[trigger] bytes@[j] == (hex_value(digits@[2 * j] as char)->0 * 16
                    + hex_value(digits@[2 * j + 1] as char)->0) as u8,
        decreases digits.len() / 2 - i,
    {
        let high = match value_of(digits[2 * i]) {
            Some(high) => high,
            None => {
                assert(!is_hex(text@)) by {
                    if is_hex(text@) {
                        assert(text@[2 * i] as u8 == digits@[2 * i]);
                    }
                }
                return None;
            },
        };
        let low = match value_of(digits[2 * i + 1]) {
            Some(low) => low,
            None => {
                assert(!is_hex(text@)) by {
                    if is_hex(text@) {
                        assert(text@[2 * i + 1] as u8 == digits@[2 * i + 1]);
                    }
                }
                return None;
            },
        };
        bytes.push(high * 16 + low);
        i += 1;
    }
    proof {
        lemma_ascii_bytes_are_text(digits@);
        assert(text@ =~= Seq::new(digits@.len(), |j: int| digits@[j] as char));
        assert(bytes@ =~= hex_bytes(text@));
    }
    Some(bytes)
}

} // verus!
