use xelis::crypto::hash;
use xelis::serializer::{Reader, ReaderError, Writer};

#[test]
fn new_writer_is_empty() {
    let writer = Writer::new();
    assert_eq!(writer.total_write(), 0);
    assert_eq!(writer.bytes(), Vec::<u8>::new());
}

#[test]
fn integers_are_written_big_endian() {
    let mut writer = Writer::new();
    writer.write_u8(0xab);
    writer.write_u16(0x0102);
    writer.write_u32(&0x0304_0506);
    writer.write_u64(&0x0708_090a_0b0c_0d0e);
    assert_eq!(writer.total_write(), 15);
    assert_eq!(
        writer.bytes(),
        vec![0xab, 0x01, 0x02, 0x03, 0x04, 0x05, 0x06, 0x07, 0x08, 0x09, 0x0a, 0x0b, 0x0c, 0x0d, 0x0e]
    );
}

#[test]
fn u128_is_written_as_sixteen_bytes() {
    let mut writer = Writer::new();
    writer.write_u128(&0x0102_0304_0506_0708_090a_0b0c_0d0e_0f10);
    assert_eq!(
        writer.bytes(),
        vec![1, 2, 3, 4, 5, 6, 7, 8, 9, 10, 11, 12, 13, 14, 15, 16]
    );
}

#[test]
fn small_integers_are_padded_with_leading_zeros() {
    let mut writer = Writer::new();
    writer.write_u64(&1);
    assert_eq!(writer.bytes(), vec![0, 0, 0, 0, 0, 0, 0, 1]);
}

#[test]
fn booleans_are_one_byte() {
    let mut writer = Writer::new();
    writer.write_bool(true);
    writer.write_bool(false);
    assert_eq!(writer.bytes(), vec![1, 0]);
}

#[test]
fn strings_are_length_prefixed_utf8() {
    let mut writer = Writer::new();
    writer.write_string(&String::from("héllo"));
    assert_eq!(writer.bytes(), vec![6, b'h', 0xc3, 0xa9, b'l', b'l', b'o']);
}

#[test]
fn empty_string_is_a_single_zero_byte() {
    let mut writer = Writer::new();
    writer.write_string(&String::new());
    assert_eq!(writer.bytes(), vec![0]);
}

#[test]
fn hash_is_written_without_prefix() {
    let mut bytes = [0u8; 32];
    bytes[0] = 9;
    bytes[31] = 7;
    let mut writer = Writer::new();
    writer.write_hash(&hash::Hash::new(bytes));
    assert_eq!(writer.bytes(), bytes.to_vec());
}

#[test]
fn raw_bytes_are_appended_as_they_are() {
    let mut writer = Writer::new();
    writer.write_u8(1);
    writer.write_bytes(&[2, 3, 4]);
    assert_eq!(writer.bytes(), vec![1, 2, 3, 4]);
}

#[test]
fn integers_read_back() {
    let input: Vec<u8> = vec![
        0xab, 0x01, 0x02, 0x03, 0x04, 0x05, 0x06, 0x07, 0x08, 0x09, 0x0a, 0x0b, 0x0c, 0x0d, 0x0e,
    ];
    let mut reader = Reader::new(&input);
    assert_eq!(reader.size(), 15);
    assert_eq!(reader.read_u8(), Ok(0xab));
    assert_eq!(reader.read_u16(), Ok(0x0102));
    assert_eq!(reader.read_u32(), Ok(0x0304_0506));
    assert_eq!(reader.read_u64(), Ok(0x0708_090a_0b0c_0d0e));
    assert_eq!(reader.size(), 0);
}

#[test]
fn u128_reads_back() {
    let value: u128 = u128::MAX - 5;
    let mut writer = Writer::new();
    writer.write_u128(&value);
    let bytes = writer.bytes();
    let mut reader = Reader::new(&bytes);
    assert_eq!(reader.read_u128(), Ok(value));
}

#[test]
fn extreme_integers_read_back() {
    let mut writer = Writer::new();
    writer.write_u16(u16::MAX);
    writer.write_u32(&u32::MAX);
    writer.write_u64(&u64::MAX);
    writer.write_u16(0);
    let bytes = writer.bytes();
    let mut reader = Reader::new(&bytes);
    assert_eq!(reader.read_u16(), Ok(u16::MAX));
    assert_eq!(reader.read_u32(), Ok(u32::MAX));
    assert_eq!(reader.read_u64(), Ok(u64::MAX));
    assert_eq!(reader.read_u16(), Ok(0));
}

#[test]
fn truncated_integer_is_invalid_size() {
    let input: Vec<u8> = vec![1, 2, 3];
    let mut reader = Reader::new(&input);
    assert_eq!(reader.read_u32(), Err(ReaderError::InvalidSize));
    assert_eq!(reader.read_u64(), Err(ReaderError::InvalidSize));
    assert_eq!(reader.read_u128(), Err(ReaderError::InvalidSize));
    assert_eq!(reader.read_hash(), Err(ReaderError::InvalidSize));
    assert_eq!(reader.size(), 3);
    assert_eq!(reader.read_u16(), Ok(0x0102));
}

#[test]
fn reading_from_nothing_is_invalid_size() {
    let input: Vec<u8> = Vec::new();
    let mut reader = Reader::new(&input);
    assert_eq!(reader.read_u8(), Err(ReaderError::InvalidSize));
    assert_eq!(reader.read_bool(), Err(ReaderError::InvalidSize));
    assert_eq!(reader.read_string(), Err(ReaderError::InvalidSize));
}

#[test]
fn booleans_read_back_and_other_bytes_are_invalid() {
    let input: Vec<u8> = vec![1, 0, 2];
    let mut reader = Reader::new(&input);
    assert_eq!(reader.read_bool(), Ok(true));
    assert_eq!(reader.read_bool(), Ok(false));
    assert_eq!(reader.read_bool(), Err(ReaderError::InvalidValue));
}

#[test]
fn strings_read_back() {
    let input: Vec<u8> = vec![6, b'h', 0xc3, 0xa9, b'l', b'l', b'o', 0xff];
    let mut reader = Reader::new(&input);
    assert_eq!(reader.read_string(), Ok(String::from("héllo")));
    assert_eq!(reader.size(), 1);
}

#[test]
fn string_shorter_than_announced_is_invalid_size() {
    let input: Vec<u8> = vec![4, b'a', b'b'];
    let mut reader = Reader::new(&input);
    assert_eq!(reader.read_string(), Err(ReaderError::InvalidSize));
}

#[test]
fn string_that_is_not_utf8_is_invalid_value() {
    let input: Vec<u8> = vec![2, 0xc3, 0x28];
    let mut reader = Reader::new(&input);
    assert_eq!(reader.read_string(), Err(ReaderError::InvalidValue));
}

#[test]
fn longest_string_round_trips() {
    let text: String = "x".repeat(255);
    let mut writer = Writer::new();
    writer.write_string(&text);
    let bytes = writer.bytes();
    assert_eq!(bytes.len(), 256);
    assert_eq!(bytes[0], 255);
    let mut reader = Reader::new(&bytes);
    assert_eq!(reader.read_string(), Ok(text));
}

#[test]
fn hash_reads_back() {
    let mut bytes = [0u8; 32];
    bytes[3] = 200;
    let digest = hash::Hash::new(bytes);
    let mut writer = Writer::new();
    writer.write_hash(&digest);
    let encoded = writer.bytes();
    let mut reader = Reader::new(&encoded);
    assert_eq!(reader.read_hash(), Ok(digest));
}

#[test]
fn hashes_compare_by_their_bytes() {
    let mut bytes = [0u8; 32];
    assert_eq!(hash::Hash::new(bytes), hash::Hash::zero());
    bytes[31] = 1;
    assert_ne!(hash::Hash::new(bytes), hash::Hash::zero());
    assert_eq!(hash::Hash::new(bytes).as_bytes(), &bytes);
}

#[test]
fn hash_text_form_is_lower_case_hexadecimal() {
    let mut bytes = [0u8; 32];
    bytes[0] = 0xab;
    bytes[1] = 0x01;
    bytes[31] = 0xf0;
    let text = hash::Hash::new(bytes).to_hex();
    assert_eq!(text.len(), 64);
    assert_eq!(
        text,
        "ab010000000000000000000000000000000000000000000000000000000000f0"
    );
    assert_eq!(hash::Hash::zero().to_hex(), "0".repeat(64));
}

#[test]
fn hash_text_form_round_trips() {
    let mut bytes = [0u8; 32];
    for i in 0..32u8 {
        bytes[i as usize] = i.wrapping_mul(37).wrapping_add(200);
    }
    let digest = hash::Hash::new(bytes);
    assert_eq!(hash::Hash::from_hex(&digest.to_hex()), Some(digest));
}

#[test]
fn hash_reads_hexadecimal_of_either_case() {
    let lower = "ab".repeat(32);
    let upper = "AB".repeat(32);
    let mixed = "aB".repeat(32);
    let expected = Some(hash::Hash::new([0xab; 32]));
    assert_eq!(hash::Hash::from_hex(&lower), expected);
    assert_eq!(hash::Hash::from_hex(&upper), expected);
    assert_eq!(hash::Hash::from_hex(&mixed), expected);
}

#[test]
fn hash_rejects_text_that_is_not_64_digits() {
    assert_eq!(hash::Hash::from_hex(""), None);
    assert_eq!(hash::Hash::from_hex(&"a".repeat(63)), None);
    assert_eq!(hash::Hash::from_hex(&"a".repeat(65)), None);
    assert_eq!(hash::Hash::from_hex(&"a".repeat(66)), None);
    assert_eq!(hash::Hash::from_hex(&"ag".repeat(32)), None);
    assert_eq!(hash::Hash::from_hex(&" a".repeat(32)), None);
    assert_eq!(hash::Hash::from_hex(&"é".repeat(32)), None);
    assert_eq!(hash::Hash::from_hex(&"é".repeat(64)), None);
}

#[test]
fn hash_from_slice_needs_32_bytes() {
    assert_eq!(hash::Hash::from_slice(&[5u8; 32]), Some(hash::Hash::new([5u8; 32])));
    assert_eq!(hash::Hash::from_slice(&[5u8; 31]), None);
    assert_eq!(hash::Hash::from_slice(&[5u8; 33]), None);
    assert_eq!(hash::Hash::from_slice(&[]), None);
}

#[test]
fn hex_spells_two_digits_per_byte() {
    assert_eq!(xelis::crypto::hex::encode_hex(&[]), "");
    assert_eq!(xelis::crypto::hex::encode_hex(&[0, 9, 10, 15, 16, 255]), "00090a0f10ff");
    assert_eq!(xelis::crypto::hex::decode_hex("00090A0f10Ff"), Some(vec![0, 9, 10, 15, 16, 255]));
    assert_eq!(xelis::crypto::hex::decode_hex(""), Some(Vec::new()));
    assert_eq!(xelis::crypto::hex::decode_hex("abc"), None);
    assert_eq!(xelis::crypto::hex::decode_hex("0x"), None);
    assert_eq!(xelis::crypto::hex::decode_hex("/0"), None);
    assert_eq!(xelis::crypto::hex::decode_hex(":0"), None);
    assert_eq!(xelis::crypto::hex::decode_hex("@0"), None);
    assert_eq!(xelis::crypto::hex::decode_hex("G0"), None);
    assert_eq!(xelis::crypto::hex::decode_hex("`0"), None);
}
