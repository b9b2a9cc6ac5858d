//! Primitive leaves: a closed set of kinds, each with a one-byte tag on the wire.

use vstd::prelude::*;
use crate::crypto::hash;
use crate::crypto::hash::HASH_SIZE;
use crate::serializer::format::{
    decode_bool, decode_hash, decode_string, decode_u128, decode_u16, decode_u32, decode_u64,
    decode_u8, encode_bool, encode_hash, encode_string, encode_u128, encode_u16, encode_u32,
    encode_u64, encode_u8, string_fits, MAX_STRING_SIZE,
};
use crate::serializer::format::{
    lemma_bool_round_trip, lemma_decoded_string_fits, lemma_hash_round_trip,
    lemma_primitive_decoders_consume, lemma_string_round_trip, lemma_suffix_transitive,
    lemma_u128_round_trip, lemma_u16_round_trip, lemma_u32_round_trip, lemma_u64_round_trip,
    lemma_u8_round_trip,
};
use crate::serializer::reader::{decoded_as, viewed, Reader, ReaderError};
use crate::serializer::writer::Writer;

verus! {

/// The kinds of primitive that a [`DataValue`] can hold, in wire-tag order.
#[derive(Clone, Copy, Debug, PartialEq, Eq, Hash, Structural)]
pub enum DataType {
    Bool,
    String,
    U8,
    U16,
    U32,
    U64,
    U128,
    Hash,
}

/// One primitive value, tagged with its kind.
#[derive(Debug, Eq, Hash)]
pub enum DataValue {
    Bool(bool),
    String(String),
    U8(u8),
    U16(u16),
    U32(u32),
    U64(u64),
    U128(u128),
    Hash(hash::Hash),
}

/// The mathematical content of a [`DataValue`]: text as characters, a digest as bytes.
pub enum DataValueView {
    Bool(bool),
    String(Seq<char>),
    U8(u8),
    U16(u16),
    U32(u32),
    U64(u64),
    U128(u128),
    Hash(Seq<u8>),
}

impl DataValueView {
    /// The kind that tags this value.
    pub open spec fn kind(self) -> DataType {
        match self {
            DataValueView::Bool(_) => DataType::Bool,
            DataValueView::String(_) => DataType::String,
            DataValueView::U8(_) => DataType::U8,
            DataValueView::U16(_) => DataType::U16,
            DataValueView::U32(_) => DataType::U32,
            DataValueView::U64(_) => DataType::U64,
            DataValueView::U128(_) => DataType::U128,
            DataValueView::Hash(_) => DataType::Hash,
        }
    }

    /// Whether the value has a binary form: text must fit its one-byte
    /// length prefix and a digest must have its fixed size.
    pub open spec fn encodable(self) -> bool {
        match self {
            DataValueView::String(text) => string_fits(text),
            DataValueView::Hash(digest) => digest.len() == HASH_SIZE,
            _ => true,
        }
    }
}

impl View for DataValue {
    type V = DataValueView;

    open spec fn view(&self) -> DataValueView {
        match self {
            DataValue::Bool(value) => DataValueView::Bool(*value),
            DataValue::String(text) => DataValueView::String(text@),
            DataValue::U8(value) => DataValueView::U8(*value),
            DataValue::U16(value) => DataValueView::U16(*value),
            DataValue::U32(value) => DataValueView::U32(*value),
            DataValue::U64(value) => DataValueView::U64(*value),
            DataValue::U128(value) => DataValueView::U128(*value),
            DataValue::Hash(digest) => DataValueView::Hash(digest@),
        }
    }
}

/// The wire tag of each kind.
pub open spec fn kind_tag(kind: DataType) -> u8 {
    match kind {
        DataType::Bool => 0,
        DataType::String => 1,
        DataType::U8 => 2,
        DataType::U16 => 3,
        DataType::U32 => 4,
        DataType::U64 => 5,
        DataType::U128 => 6,
        DataType::Hash => 7,
    }
}

/// The payload that follows the tag.
pub open spec fn encode_payload(value: DataValueView) -> Seq<u8> {
    match value {
        DataValueView::Bool(value) => encode_bool(value),
        DataValueView::String(text) => encode_string(text),
        DataValueView::U8(value) => encode_u8(value),
        DataValueView::U16(value) => encode_u16(value),
        DataValueView::U32(value) => encode_u32(value),
        DataValueView::U64(value) => encode_u64(value),
        DataValueView::U128(value) => encode_u128(value),
        DataValueView::Hash(digest) => encode_hash(digest),
    }
}

/// The binary form of a value: its kind's tag, then its payload.
pub open spec fn encode_value(value: DataValueView) -> Seq<u8> {
    seq![kind_tag(value.kind())] + encode_payload(value)
}

/// Decodes the payload announced by `tag`; a tag above 7 names no kind.
pub open spec fn decode_payload(tag: u8, input: Seq<u8>) -> Result<
    (DataValueView, Seq<u8>),
    ReaderError,
> {
    if tag == 0 {
        match decode_bool(input) {
            Ok((value, rest)) => Ok((DataValueView::Bool(value), rest)),
            Err(e) => Err(e),
        }
    } else if tag == 1 {
        match decode_string(input) {
            Ok((text, rest)) => Ok((DataValueView::String(text), rest)),
            Err(e) => Err(e),
        }
    } else if tag == 2 {
        match decode_u8(input) {
            Ok((value, rest)) => Ok((DataValueView::U8(value), rest)),
            Err(e) => Err(e),
        }
    } else if tag == 3 {
        match decode_u16(input) {
            Ok((value, rest)) => Ok((DataValueView::U16(value), rest)),
            Err(e) => Err(e),
        }
    } else if tag == 4 {
        match decode_u32(input) {
            Ok((value, rest)) => Ok((DataValueView::U32(value), rest)),
            Err(e) => Err(e),
        }
    } else if tag == 5 {
        match decode_u64(input) {
            Ok((value, rest)) => Ok((DataValueView::U64(value), rest)),
            Err(e) => Err(e),
        }
    } else if tag == 6 {
        match decode_u128(input) {
            Ok((value, rest)) => Ok((DataValueView::U128(value), rest)),
            Err(e) => Err(e),
        }
    } else if tag == 7 {
        match decode_hash(input) {
            Ok((digest, rest)) => Ok((DataValueView::Hash(digest), rest)),
            Err(e) => Err(e),
        }
    } else {
        Err(ReaderError::InvalidValue)
    }
}

/// Decodes one tagged value from the front of `input`.
pub open spec fn decode_value(input: Seq<u8>) -> Result<(DataValueView, Seq<u8>), ReaderError> {
    match decode_u8(input) {
        Ok((tag, rest)) => decode_payload(tag, rest),
        Err(e) => Err(e),
    }
}

impl DataValue {
    /// The kind of primitive held.
    pub fn kind(&self) -> (kind: DataType)
        ensures
            kind == self@.kind(),
    {
        match self {
            DataValue::Bool(_) => DataType::Bool,
            DataValue::String(_) => DataType::String,
            DataValue::U8(_) => DataType::U8,
            DataValue::U16(_) => DataType::U16,
            DataValue::U32(_) => DataType::U32,
            DataValue::U64(_) => DataType::U64,
            DataValue::U128(_) => DataType::U128,
            DataValue::Hash(_) => DataType::Hash,
        }
    }

    /// Whether [`DataValue::write`] accepts this value.
    pub fn is_encodable(&self) -> (encodable: bool)
        ensures
            encodable == self@.encodable(),
    {
        match self {
            DataValue::String(text) => text.as_str().as_bytes().len() <= MAX_STRING_SIZE,
            _ => true,
        }
    }

    /// Appends the tag and payload of this value.
    pub fn write(&self, writer: &mut Writer)
        requires
            self@.encodable(),
        ensures
            final(writer)@ == old(writer)@ + encode_value(self@),
    {
        match self {
            DataValue::Bool(value) => {
                writer.write_u8(0);
                writer.write_bool(*value);
            },
            DataValue::String(text) => {
                writer.write_u8(1);
                writer.write_string(text);
            },
            DataValue::U8(value) => {
                writer.write_u8(2);
                writer.write_u8(*value);
            },
            DataValue::U16(value) => {
                writer.write_u8(3);
                writer.write_u16(*value);
            },
            DataValue::U32(value) => {
                writer.write_u8(4);
                writer.write_u32(value);
            },
            DataValue::U64(value) => {
                writer.write_u8(5);
                writer.write_u64(value);
            },
            DataValue::U128(value) => {
                writer.write_u8(6);
                writer.write_u128(value);
            },
            DataValue::Hash(digest) => {
                writer.write_u8(7);
                writer.write_hash(digest);
            },
        }
        assert(writer@ =~= old(writer)@ + encode_value(self@));
    }

    /// Reads one tagged value; an unknown tag is an invalid value.
    pub fn read(reader: &mut Reader) -> (value: Result<DataValue, ReaderError>)
        ensures
            decoded_as(old(reader)@, final(reader)@, decode_value(old(reader)@), viewed(value)),
    {
        let tag = match reader.read_u8() {
            Ok(tag) => tag,
            Err(e) => {
                return Err(e);
            },
        };
        let ghost payload = reader@;
        assert(payload.is_suffix_of(old(reader)@));
        let value = match tag {
            0 => match reader.read_bool() {
                Ok(value) => Ok(DataValue::Bool(value)),
                Err(e) => Err(e),
            },
            1 => match reader.read_string() {
                Ok(text) => Ok(DataValue::String(text)),
                Err(e) => Err(e),
            },
            2 => match reader.read_u8() {
                Ok(value) => Ok(DataValue::U8(value)),
                Err(e) => Err(e),
            },
            3 => match reader.read_u16() {
                Ok(value) => Ok(DataValue::U16(value)),
                Err(e) => Err(e),
            },
            4 => match reader.read_u32() {
                Ok(value) => Ok(DataValue::U32(value)),
                Err(e) => Err(e),
            },
            5 => match reader.read_u64() {
                Ok(value) => Ok(DataValue::U64(value)),
                Err(e) => Err(e),
            },
            6 => match reader.read_u128() {
                Ok(value) => Ok(DataValue::U128(value)),
                Err(e) => Err(e),
            },
            7 => match reader.read_hash() {
                Ok(digest) => Ok(DataValue::Hash(digest)),
                Err(e) => Err(e),
            },
            _ => Err(ReaderError::InvalidValue),
        };
        proof {
            lemma_suffix_transitive(reader@, payload, old(reader)@);
        }
        value
    }
}

impl Clone for DataValue {
    fn clone(&self) -> (copy: DataValue)
        ensures
            copy@ == self@,
    {
        match self {
            DataValue::Bool(value) => DataValue::Bool(*value),
            DataValue::String(text) => DataValue::String(text.clone()),
            DataValue::U8(value) => DataValue::U8(*value),
            DataValue::U16(value) => DataValue::U16(*value),
            DataValue::U32(value) => DataValue::U32(*value),
            DataValue::U64(value) => DataValue::U64(*value),
            DataValue::U128(value) => DataValue::U128(*value),
            DataValue::Hash(digest) => DataValue::Hash(*digest),
        }
    }
}

impl PartialEq for DataValue {
    fn eq(&self, other: &DataValue) -> (equal: bool) {
        match (self, other) {
            (DataValue::Bool(a), DataValue::Bool(b)) => *a == *b,
            (DataValue::String(a), DataValue::String(b)) => *a == *b,
            (DataValue::U8(a), DataValue::U8(b)) => *a == *b,
            (DataValue::U16(a), DataValue::U16(b)) => *a == *b,
            (DataValue::U32(a), DataValue::U32(b)) => *a == *b,
            (DataValue::U64(a), DataValue::U64(b)) => *a == *b,
            (DataValue::U128(a), DataValue::U128(b)) => *a == *b,
            (DataValue::Hash(a), DataValue::Hash(b)) => *a == *b,
            _ => false,
        }
    }
}

impl vstd::std_specs::cmp::PartialEqSpecImpl for DataValue {
    open spec fn obeys_eq_spec() -> bool {
        true
    }

    open spec fn eq_spec(&self, other: &DataValue) -> bool {
        self@ == other@
    }
}

/// A value that decodes is encodable, and what is left of the input is a
/// strictly shorter suffix of it.
pub proof fn lemma_decode_value_consumes(input: Seq<u8>)
    ensures
        decode_value(input) matches Ok((value, rest)) ==> {
            &&& rest.is_suffix_of(input)
            &&& rest.len() < input.len()
            &&& value.encodable()
        },
{
    lemma_primitive_decoders_consume(input);
    if let Ok((tag, payload)) = decode_u8(input) {
        lemma_primitive_decoders_consume(payload);
        lemma_decoded_string_fits(payload);
        if let Ok((_, rest)) = decode_payload(tag, payload) {
            lemma_suffix_transitive(rest, payload, input);
        }
    }
}

/// Bytes that start with a tag of 8 or above decode to no value.
pub proof fn lemma_unknown_value_tag(input: Seq<u8>)
    requires
        input.len() > 0,
        input[0] >= 8,
    ensures
        decode_value(input) == Err::<(DataValueView, Seq<u8>), _>(ReaderError::InvalidValue),
{
}

/// Decoding the binary form of an encodable value, whatever follows it,
/// yields the value and leaves what follows.
pub proof fn lemma_value_round_trip(value: DataValueView, tail: Seq<u8>)
    requires
        value.encodable(),
    ensures
        decode_value(encode_value(value) + tail) == Ok::<_, ReaderError>((value, tail)),
{
    let payload = encode_payload(value) + tail;
    let input = encode_value(value) + tail;
    assert(input.skip(1) =~= payload);
    assert(input[0] == kind_tag(value.kind()));
    match value {
        DataValueView::Bool(v) => lemma_bool_round_trip(v, tail),
        DataValueView::String(v) => lemma_string_round_trip(v, tail),
        DataValueView::U8(v) => lemma_u8_round_trip(v, tail),
        DataValueView::U16(v) => lemma_u16_round_trip(v, tail),
        DataValueView::U32(v) => lemma_u32_round_trip(v, tail),
        DataValueView::U64(v) => lemma_u64_round_trip(v, tail),
        DataValueView::U128(v) => lemma_u128_round_trip(v, tail),
        DataValueView::Hash(v) => lemma_hash_round_trip(v, tail),
    }
}

/// Round trip: decoding the binary form of an encodable value gives the
/// value back and uses up every byte.
pub proof fn lemma_value_decodes_to_itself(value: DataValueView)
    requires
        value.encodable(),
    ensures
        decode_value(encode_value(value)) == Ok::<_, ReaderError>((value, Seq::<u8>::empty())),
{
    lemma_value_round_trip(value, Seq::empty());
    assert(encode_value(value) + Seq::<u8>::empty() =~= encode_value(value));
}

} // verus!
