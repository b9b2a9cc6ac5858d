//! A cursor over an input buffer that values are decoded from.

use vstd::prelude::*;
use vstd::slice::{slice_subrange, slice_to_vec};
use vstd::utf8::encode_utf8_decode_utf8;
use crate::crypto::hash;
use crate::crypto::hash::HASH_SIZE;
use crate::serializer::endian::{
    be_value, lemma_radix_pow_monotonic, lemma_radix_pow_widths, radix_pow,
};
use crate::utf8::string_from_utf8;
use crate::serializer::format::{
    decode_bool, decode_hash, decode_string, decode_u128, decode_u16, decode_u32, decode_u64,
    decode_u8,
};

verus! {

/// Why decoding stopped.
#[derive(Clone, Copy, Debug, PartialEq, Eq, Structural)]
pub enum ReaderError {
    /// The input ends before the value does.
    InvalidSize,
    /// The bytes are present but do not spell a value of the expected kind.
    InvalidValue,
}

/// Reads values off the front of a borrowed buffer.
pub struct Reader<'a> {
    bytes: &'a [u8],
    total: usize,
}

impl<'a> View for Reader<'a> {
    type V = Seq<u8>;

    /// The input that has not been read yet.
    closed spec fn view(&self) -> Seq<u8> {
        self.bytes@.skip(self.total as int)
    }
}

impl<'a> Reader<'a> {
    #[verifier::type_invariant]
    spec fn in_bounds(&self) -> bool {
        self.total <= self.bytes@.len()
    }

    /// A cursor at the start of `bytes`.
    pub fn new(bytes: &'a [u8]) -> (reader: Reader<'a>)
        ensures
            reader@ == bytes@,
    {
        let reader = Reader { bytes, total: 0 };
        assert(reader@ =~= bytes@);
        reader
    }

    /// Number of bytes left to read.
    pub fn size(&self) -> (left: usize)
        ensures
            left == self@.len(),
    {
        proof {
            use_type_invariant(self);
        }
        self.bytes.len() - self.total
    }

    /// Takes the next `count` bytes, or fails without moving if fewer are left.
    fn take(&mut self, count: usize) -> (taken: Result<&'a [u8], ReaderError>)
        ensures
            old(self)@.len() < count ==> taken == Err::<&[u8], _>(ReaderError::InvalidSize)
                && final(self)@ == old(self)@,
            old(self)@.len() >= count ==> taken is Ok && taken->Ok_0@ == old(self)@.take(
                count as int,
            ) && final(self)@ == old(self)@.skip(count as int),
    {
        proof {
            use_type_invariant(&*self);
        }
        if self.bytes.len() - self.total < count {
            return Err(ReaderError::InvalidSize);
        }
        let start = self.total;
        let taken = slice_subrange(self.bytes, start, start + count);
        self.total = start + count;
        assert(taken@ =~= old(self)@.take(count as int));
        assert(self@ =~= old(self)@.skip(count as int));
        Ok(taken)
    }

    /// Takes the next `width` bytes as a big-endian number.
    fn read_be(&mut self, width: usize) -> (value: Result<u128, ReaderError>)
        requires
            width <= 16,
        ensures
            old(self)@.len() < width ==> value == Err::<u128, _>(ReaderError::InvalidSize)
                && final(self)@ == old(self)@,
            old(self)@.len() >= width ==> value == Ok::<_, ReaderError>(
                be_value(old(self)@.take(width as int)) as u128,
            ) && be_value(old(self)@.take(width as int)) < radix_pow(width as nat)
                && final(self)@ == old(self)@.skip(width as int),
    {
        let digits = match self.take(width) {
            Ok(digits) => digits,
            Err(e) => {
                return Err(e);
            },
        };
        let mut value: u128 = 0;
        let mut i: usize = 0;
        proof {
            lemma_radix_pow_widths();
        }
        while i < width
            invariant
                i <= width <= 16,
                digits@.len() == width,
                value == be_value(digits@.take(i as int)),
                value < radix_pow(i as nat),
                radix_pow(16) == 0x1_0000_0000_0000_0000_0000_0000_0000_0000,
            decreases width - i,
        {
            proof {
                lemma_radix_pow_monotonic((i + 1) as nat, 16);
                assert(digits@.take(i + 1).drop_last() =~= digits@.take(i as int));
            }
            value = value * 256 + digits[i] as u128;
            i += 1;
        }
        assert(digits@.take(i as int) =~= digits@);
        Ok(value)
    }

    /// Reads one byte.
    pub fn read_u8(&mut self) -> (value: Result<u8, ReaderError>)
        ensures
            decoded_as(old(self)@, final(self)@, decode_u8(old(self)@), value),
    {
        match self.take(1) {
            Ok(taken) => Ok(taken[0]),
            Err(e) => Err(e),
        }
    }

    /// Reads a big-endian integer of two bytes.
    pub fn read_u16(&mut self) -> (value: Result<u16, ReaderError>)
        ensures
            decoded_as(old(self)@, final(self)@, decode_u16(old(self)@), value),
    {
        proof {
            lemma_radix_pow_widths();
        }
        match self.read_be(2) {
            Ok(value) => Ok(value as u16),
            Err(e) => Err(e),
        }
    }

    /// Reads a big-endian integer of four bytes.
    pub fn read_u32(&mut self) -> (value: Result<u32, ReaderError>)
        ensures
            decoded_as(old(self)@, final(self)@, decode_u32(old(self)@), value),
    {
        proof {
            lemma_radix_pow_widths();
        }
        match self.read_be(4) {
            Ok(value) => Ok(value as u32),
            Err(e) => Err(e),
        }
    }

    /// Reads a big-endian integer of eight bytes.
    pub fn read_u64(&mut self) -> (value: Result<u64, ReaderError>)
        ensures
            decoded_as(old(self)@, final(self)@, decode_u64(old(self)@), value),
    {
        proof {
            lemma_radix_pow_widths();
        }
        match self.read_be(8) {
            Ok(value) => Ok(value as u64),
            Err(e) => Err(e),
        }
    }

    /// Reads a big-endian integer of sixteen bytes.
    pub fn read_u128(&mut self) -> (value: Result<u128, ReaderError>)
        ensures
            decoded_as(old(self)@, final(self)@, decode_u128(old(self)@), value),
    {
        proof {
            lemma_radix_pow_widths();
        }
        self.read_be(16)
    }

    /// Reads a boolean: the byte `1` or the byte `0`, nothing else.
    pub fn read_bool(&mut self) -> (value: Result<bool, ReaderError>)
        ensures
            decoded_as(old(self)@, final(self)@, decode_bool(old(self)@), value),
    {
        match self.take(1) {
            Ok(taken) => {
                if taken[0] > 1 {
                    assert(self@.is_suffix_of(old(self)@));
                    Err(ReaderError::InvalidValue)
                } else {
                    Ok(taken[0] == 1)
                }
            },
            Err(e) => Err(e),
        }
    }

    /// Reads a length byte and that many bytes of UTF-8 text.
    pub fn read_string(&mut self) -> (value: Result<String, ReaderError>)
        ensures
            decoded_as(
                old(self)@,
                final(self)@,
                decode_string(old(self)@),
                viewed(value),
            ),
    {
        let size = match self.take(1) {
            Ok(taken) => taken[0],
            Err(e) => {
                return Err(e);
            },
        };
        let body = match self.take(size as usize) {
            Ok(body) => body,
            Err(e) => {
                assert(self@.is_suffix_of(old(self)@));
                return Err(e);
            },
        };
        assert(body@ =~= old(self)@.subrange(1, 1 + size));
        assert(self@ =~= old(self)@.skip(1 + size));
        assert(self@.is_suffix_of(old(self)@));
        match string_from_utf8(slice_to_vec(body)) {
            Some(text) => {
                proof {
                    encode_utf8_decode_utf8(text@);
                }
                Ok(text)
            },
            None => Err(ReaderError::InvalidValue),
        }
    }

    /// Reads the 32 bytes of a digest.
    pub fn read_hash(&mut self) -> (value: Result<hash::Hash, ReaderError>)
        ensures
            decoded_as(
                old(self)@,
                final(self)@,
                decode_hash(old(self)@),
                viewed(value),
            ),
    {
        let taken = match self.take(HASH_SIZE) {
            Ok(taken) => taken,
            Err(e) => {
                return Err(e);
            },
        };
        Ok(hash::Hash::from_slice(taken).unwrap())
    }
}

/// What a read promises: on success the decoded value and exactly the
/// decoder's leftover input; on failure the decoder's error, with the cursor
/// somewhere at or after where it stood.
pub open spec fn decoded_as<T>(
    before: Seq<u8>,
    after: Seq<u8>,
    expected: Result<(T, Seq<u8>), ReaderError>,
    actual: Result<T, ReaderError>,
) -> bool {
    match expected {
        Ok((value, rest)) => actual == Ok::<T, ReaderError>(value) && after == rest,
        Err(e) => actual == Err::<T, ReaderError>(e) && after.is_suffix_of(before),
    }
}

/// The outcome of a read with the value replaced by its model.
pub open spec fn viewed<T: View>(outcome: Result<T, ReaderError>) -> Result<T::V, ReaderError> {
    match outcome {
        Ok(value) => Ok(value@),
        Err(e) => Err(e),
    }
}

} // verus!
