//! The wire format of the primitive values, as functions on byte sequences.
//!
//! Every decoder takes the unread input and yields the decoded value together
//! with the input that is left, or the error that stops decoding.

use vstd::prelude::*;
use vstd::utf8::*;
use crate::crypto::hash::HASH_SIZE;
use crate::serializer::endian::{be_bytes, be_value, lemma_be_bytes_len, lemma_be_value_of_bytes, lemma_radix_pow_widths, radix_pow};
use crate::serializer::reader::ReaderError;

verus! {

/// Longest string, in UTF-8 bytes, that the one-byte length prefix can announce.
pub const MAX_STRING_SIZE: usize = 255;

/// A single byte stands for itself.
pub open spec fn encode_u8(value: u8) -> Seq<u8> {
    seq![value]
}

/// Two bytes, most significant first.
pub open spec fn encode_u16(value: u16) -> Seq<u8> {
    be_bytes(value as nat, 2)
}

/// Four bytes, most significant first.
pub open spec fn encode_u32(value: u32) -> Seq<u8> {
    be_bytes(value as nat, 4)
}

/// Eight bytes, most significant first.
pub open spec fn encode_u64(value: u64) -> Seq<u8> {
    be_bytes(value as nat, 8)
}

/// Sixteen bytes, most significant first.
pub open spec fn encode_u128(value: u128) -> Seq<u8> {
    be_bytes(value as nat, 16)
}

/// One byte: `1` for true, `0` for false.
pub open spec fn encode_bool(value: bool) -> Seq<u8> {
    seq![if value { 1u8 } else { 0u8 }]
}

/// Whether the UTF-8 form of `text` is short enough for the length prefix.
pub open spec fn string_fits(text: Seq<char>) -> bool {
    encode_utf8(text).len() <= MAX_STRING_SIZE
}

/// One length byte, then the UTF-8 bytes of the text.
pub open spec fn encode_string(text: Seq<char>) -> Seq<u8> {
    seq![encode_utf8(text).len() as u8] + encode_utf8(text)
}

/// The digest's bytes, with no prefix.
pub open spec fn encode_hash(digest: Seq<u8>) -> Seq<u8> {
    digest
}

/// The first byte.
pub open spec fn decode_u8(input: Seq<u8>) -> Result<(u8, Seq<u8>), ReaderError> {
    if input.len() < 1 {
        Err(ReaderError::InvalidSize)
    } else {
        Ok((input[0], input.skip(1)))
    }
}

/// The first two bytes as a big-endian integer.
pub open spec fn decode_u16(input: Seq<u8>) -> Result<(u16, Seq<u8>), ReaderError> {
    if input.len() < 2 {
        Err(ReaderError::InvalidSize)
    } else {
        Ok((be_value(input.take(2)) as u16, input.skip(2)))
    }
}

/// The first four bytes as a big-endian integer.
pub open spec fn decode_u32(input: Seq<u8>) -> Result<(u32, Seq<u8>), ReaderError> {
    if input.len() < 4 {
        Err(ReaderError::InvalidSize)
    } else {
        Ok((be_value(input.take(4)) as u32, input.skip(4)))
    }
}

/// The first eight bytes as a big-endian integer.
pub open spec fn decode_u64(input: Seq<u8>) -> Result<(u64, Seq<u8>), ReaderError> {
    if input.len() < 8 {
        Err(ReaderError::InvalidSize)
    } else {
        Ok((be_value(input.take(8)) as u64, input.skip(8)))
    }
}

/// The first sixteen bytes as a big-endian integer.
pub open spec fn decode_u128(input: Seq<u8>) -> Result<(u128, Seq<u8>), ReaderError> {
    if input.len() < 16 {
        Err(ReaderError::InvalidSize)
    } else {
        Ok((be_value(input.take(16)) as u128, input.skip(16)))
    }
}

/// A byte other than `0` and `1` is not a boolean.
pub open spec fn decode_bool(input: Seq<u8>) -> Result<(bool, Seq<u8>), ReaderError> {
    if input.len() < 1 {
        Err(ReaderError::InvalidSize)
    } else if input[0] > 1 {
        Err(ReaderError::InvalidValue)
    } else {
        Ok((input[0] == 1, input.skip(1)))
    }
}

/// The announced number of bytes must be present and be valid UTF-8.
pub open spec fn decode_string(input: Seq<u8>) -> Result<(Seq<char>, Seq<u8>), ReaderError> {
    if input.len() < 1 || input.len() < 1 + input[0] {
        Err(ReaderError::InvalidSize)
    } else if !valid_utf8(input.subrange(1, 1 + input[0])) {
        Err(ReaderError::InvalidValue)
    } else {
        Ok((decode_utf8(input.subrange(1, 1 + input[0])), input.skip(1 + input[0])))
    }
}

/// The first 32 bytes as a digest.
pub open spec fn decode_hash(input: Seq<u8>) -> Result<(Seq<u8>, Seq<u8>), ReaderError> {
    if input.len() < HASH_SIZE {
        Err(ReaderError::InvalidSize)
    } else {
        Ok((input.take(HASH_SIZE as int), input.skip(HASH_SIZE as int)))
    }
}

/// Decoding a big-endian integer that is followed by `tail` yields the
/// integer and leaves `tail`.
pub proof fn lemma_uint_round_trip(value: nat, width: nat, tail: Seq<u8>)
    requires
        value < radix_pow(width),
    ensures
        (be_bytes(value, width) + tail).len() >= width,
        be_value((be_bytes(value, width) + tail).take(width as int)) == value,
        (be_bytes(value, width) + tail).skip(width as int) == tail,
{
    let digits = be_bytes(value, width);
    lemma_be_bytes_len(value, width);
    lemma_be_value_of_bytes(value, width);
    assert((digits + tail).take(width as int) =~= digits);
    assert((digits + tail).skip(width as int) =~= tail);
}

/// Decoding an encoded byte yields the byte and leaves what follows.
pub proof fn lemma_u8_round_trip(value: u8, tail: Seq<u8>)
    ensures
        decode_u8(encode_u8(value) + tail) == Ok::<_, ReaderError>((value, tail)),
{
    assert((encode_u8(value) + tail).skip(1) =~= tail);
}

/// Decoding an encoded 16-bit integer yields it and leaves what follows.
pub proof fn lemma_u16_round_trip(value: u16, tail: Seq<u8>)
    ensures
        decode_u16(encode_u16(value) + tail) == Ok::<_, ReaderError>((value, tail)),
{
    lemma_radix_pow_widths();
    lemma_uint_round_trip(value as nat, 2, tail);
}

/// Decoding an encoded 32-bit integer yields it and leaves what follows.
pub proof fn lemma_u32_round_trip(value: u32, tail: Seq<u8>)
    ensures
        decode_u32(encode_u32(value) + tail) == Ok::<_, ReaderError>((value, tail)),
{
    lemma_radix_pow_widths();
    lemma_uint_round_trip(value as nat, 4, tail);
}

/// Decoding an encoded 64-bit integer yields it and leaves what follows.
pub proof fn lemma_u64_round_trip(value: u64, tail: Seq<u8>)
    ensures
        decode_u64(encode_u64(value) + tail) == Ok::<_, ReaderError>((value, tail)),
{
    lemma_radix_pow_widths();
    lemma_uint_round_trip(value as nat, 8, tail);
}

/// Decoding an encoded 128-bit integer yields it and leaves what follows.
pub proof fn lemma_u128_round_trip(value: u128, tail: Seq<u8>)
    ensures
        decode_u128(encode_u128(value) + tail) == Ok::<_, ReaderError>((value, tail)),
{
    lemma_radix_pow_widths();
    lemma_uint_round_trip(value as nat, 16, tail);
}

/// Decoding an encoded boolean yields it and leaves what follows.
pub proof fn lemma_bool_round_trip(value: bool, tail: Seq<u8>)
    ensures
        decode_bool(encode_bool(value) + tail) == Ok::<_, ReaderError>((value, tail)),
{
    assert((encode_bool(value) + tail).skip(1) =~= tail);
}

/// Decoding encoded text that fits its prefix yields it and leaves what follows.
pub proof fn lemma_string_round_trip(text: Seq<char>, tail: Seq<u8>)
    requires
        string_fits(text),
    ensures
        decode_string(encode_string(text) + tail) == Ok::<_, ReaderError>((text, tail)),
{
    let body = encode_utf8(text);
    let input = encode_string(text) + tail;
    assert(input[0] == body.len());
    assert(input.subrange(1, 1 + input[0]) =~= body);
    assert(input.skip(1 + input[0]) =~= tail);
    encode_utf8_valid_utf8(text);
    encode_utf8_decode_utf8(text);
}

/// Decoding an encoded digest yields it and leaves what follows.
pub proof fn lemma_hash_round_trip(digest: Seq<u8>, tail: Seq<u8>)
    requires
        digest.len() == HASH_SIZE,
    ensures
        decode_hash(encode_hash(digest) + tail) == Ok::<_, ReaderError>((digest, tail)),
{
    assert((digest + tail).take(HASH_SIZE as int) =~= digest);
    assert((digest + tail).skip(HASH_SIZE as int) =~= tail);
}

/// A suffix of a suffix is a suffix.
pub proof fn lemma_suffix_transitive(inner: Seq<u8>, middle: Seq<u8>, outer: Seq<u8>)
    requires
        inner.is_suffix_of(middle),
        middle.is_suffix_of(outer),
    ensures
        inner.is_suffix_of(outer),
{
    let a = middle.len() - inner.len();
    let b = outer.len() - middle.len();
    assert(inner =~= outer.skip(a + b));
}

/// Every primitive decoder that succeeds leaves a strictly shorter suffix
/// of its input.
pub proof fn lemma_primitive_decoders_consume(input: Seq<u8>)
    ensures
        decode_u8(input) matches Ok((_, rest)) ==> rest.is_suffix_of(input) && rest.len()
            < input.len(),
        decode_u16(input) matches Ok((_, rest)) ==> rest.is_suffix_of(input) && rest.len()
            < input.len(),
        decode_u32(input) matches Ok((_, rest)) ==> rest.is_suffix_of(input) && rest.len()
            < input.len(),
        decode_u64(input) matches Ok((_, rest)) ==> rest.is_suffix_of(input) && rest.len()
            < input.len(),
        decode_u128(input) matches Ok((_, rest)) ==> rest.is_suffix_of(input) && rest.len()
            < input.len(),
        decode_bool(input) matches Ok((_, rest)) ==> rest.is_suffix_of(input) && rest.len()
            < input.len(),
        decode_string(input) matches Ok((_, rest)) ==> rest.is_suffix_of(input) && rest.len()
            < input.len(),
        decode_hash(input) matches Ok((_, rest)) ==> rest.is_suffix_of(input) && rest.len()
            < input.len(),
{
}

/// Text that decodes from a length-prefixed string fits the prefix again.
pub proof fn lemma_decoded_string_fits(input: Seq<u8>)
    ensures
        decode_string(input) matches Ok((text, _)) ==> string_fits(text),
{
    if decode_string(input) is Ok {
        decode_utf8_encode_utf8(input.subrange(1, 1 + input[0]));
    }
}

} // verus!
