//! A growable byte buffer that values are encoded into.

use vstd::prelude::*;
use vstd::utf8::*;
use crate::crypto::hash;
use crate::serializer::endian::be_bytes;
use crate::serializer::format::{
    encode_bool, encode_hash, encode_string, encode_u128, encode_u16, encode_u32, encode_u64,
    encode_u8, string_fits,
};

verus! {

/// Collects the bytes of an encoding, in the order they are written.
pub struct Writer {
    bytes: Vec<u8>,
}

impl View for Writer {
    type V = Seq<u8>;

    /// Everything written so far.
    closed spec fn view(&self) -> Seq<u8> {
        self.bytes@
    }
}

impl Writer {
    /// An empty buffer.
    pub fn new() -> (writer: Writer)
        ensures
            writer@ == Seq::<u8>::empty(),
    {
        Writer { bytes: Vec::new() }
    }

    /// Appends the `width` lowest bytes of `value`, most significant first.
    fn write_be(&mut self, value: u128, width: usize)
        ensures
            final(self)@ == old(self)@ + be_bytes(value as nat, width as nat),
        decreases width,
    {
        if width > 0 {
            self.write_be(value / 256, width - 1);
            self.bytes.push((value % 256) as u8);
            assert(self@ =~= old(self)@ + be_bytes(value as nat, width as nat));
        } else {
            assert(self@ =~= old(self)@ + be_bytes(value as nat, width as nat));
        }
    }

    /// Appends raw bytes, unframed.
    pub fn write_bytes(&mut self, bytes: &[u8])
        ensures
            final(self)@ == old(self)@ + bytes@,
    {
        let mut i: usize = 0;
        while i < bytes.len()
            invariant
                i <= bytes.len(),
                self@ == old(self)@ + bytes@.take(i as int),
            decreases bytes.len() - i,
        {
            self.bytes.push(bytes[i]);
            i += 1;
            assert(self@ =~= old(self)@ + bytes@.take(i as int));
        }
        assert(bytes@.take(i as int) =~= bytes@);
    }

    /// Appends one byte.
    pub fn write_u8(&mut self, value: u8)
        ensures
            final(self)@ == old(self)@ + encode_u8(value),
    {
        self.bytes.push(value);
        assert(self@ =~= old(self)@ + encode_u8(value));
    }

    /// Appends two bytes, most significant first.
    pub fn write_u16(&mut self, value: u16)
        ensures
            final(self)@ == old(self)@ + encode_u16(value),
    {
        self.write_be(value as u128, 2);
    }

    /// Appends four bytes, most significant first.
    pub fn write_u32(&mut self, value: &u32)
        ensures
            final(self)@ == old(self)@ + encode_u32(*value),
    {
        self.write_be(*value as u128, 4);
    }

    /// Appends eight bytes, most significant first.
    pub fn write_u64(&mut self, value: &u64)
        ensures
            final(self)@ == old(self)@ + encode_u64(*value),
    {
        self.write_be(*value as u128, 8);
    }

    /// Appends sixteen bytes, most significant first.
    pub fn write_u128(&mut self, value: &u128)
        ensures
            final(self)@ == old(self)@ + encode_u128(*value),
    {
        self.write_be(*value, 16);
    }

    /// Appends the byte `1` for true, `0` for false.
    pub fn write_bool(&mut self, value: bool)
        ensures
            final(self)@ == old(self)@ + encode_bool(value),
    {
        self.bytes.push(if value { 1 } else { 0 });
        assert(self@ =~= old(self)@ + encode_bool(value));
    }

    /// Appends the length-prefixed UTF-8 form of `value`, which must fit the prefix.
    pub fn write_string(&mut self, value: &String)
        requires
            string_fits(value@),
        ensures
            final(self)@ == old(self)@ + encode_string(value@),
    {
        let bytes = value.as_str().as_bytes();
        self.bytes.push(bytes.len() as u8);
        self.write_bytes(bytes);
        assert(self@ =~= old(self)@ + encode_string(value@));
    }

    /// Appends the 32 bytes of a digest.
    pub fn write_hash(&mut self, hash: &hash::Hash)
        ensures
            final(self)@ == old(self)@ + encode_hash(hash@),
    {
        self.write_bytes(hash.as_bytes().as_slice());
    }

    /// Number of bytes written so far.
    pub fn total_write(&self) -> (total: usize)
        ensures
            total == self@.len(),
    {
        self.bytes.len()
    }

    /// Gives up the buffer.
    pub fn bytes(self) -> (bytes: Vec<u8>)
        ensures
            bytes@ == self@,
    {
        self.bytes
    }
}

} // verus!
