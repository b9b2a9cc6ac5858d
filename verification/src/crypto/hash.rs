//! Fixed-size digests that name assets and other chain objects.

use vstd::prelude::*;
use crate::crypto::bytes_equal;
use crate::crypto::hex::{decode_hex, encode_hex, hex_bytes, hex_text, is_hex};

verus! {

/// Number of bytes in a [`Hash`].
pub const HASH_SIZE: usize = 32;

/// A 32-byte digest. Two hashes are equal exactly when their bytes are.
#[derive(Clone, Copy, Debug, Eq, Hash)]
pub struct Hash {
    pub bytes: [u8; HASH_SIZE],
}

impl View for Hash {
    type V = Seq<u8>;

    open spec fn view(&self) -> Seq<u8> {
        self.bytes@
    }
}

impl Hash {
    /// Wraps 32 raw bytes.
    pub fn new(bytes: [u8; HASH_SIZE]) -> (hash: Hash)
        ensures
            hash@ == bytes@,
    {
        Hash { bytes }
    }

    /// The all-zero digest.
    pub fn zero() -> (hash: Hash)
        ensures
            hash@ == Seq::new(HASH_SIZE as nat, |i: int| 0u8),
    {
        let hash = Hash { bytes: [0u8; HASH_SIZE] };
        assert(hash@ =~= Seq::new(HASH_SIZE as nat, |i: int| 0u8));
        hash
    }

    /// The digest with the given bytes, if there are exactly 32 of them.
    pub fn from_slice(bytes: &[u8]) -> (hash: Option<Hash>)
        ensures
            hash is Some <==> bytes@.len() == HASH_SIZE,
            hash matches Some(hash) ==> hash@ == bytes@,
    {
        if bytes.len() != HASH_SIZE {
            return None;
        }
        let mut copy = [0u8; HASH_SIZE];
        let mut i: usize = 0;
        while i < HASH_SIZE
            invariant
                i <= HASH_SIZE,
                bytes@.len() == HASH_SIZE,
                forall|j: int| 0 <= j < i ==> copy@[j] == bytes@[j],
            decreases HASH_SIZE - i,
        {
            copy[i] = bytes[i];
            i += 1;
        }
        assert(copy@ =~= bytes@);
        Some(Hash { bytes: copy })
    }

    /// The canonical text form: 64 lower-case hexadecimal digits.
    pub fn to_hex(&self) -> (text: String)
        ensures
            text@ == hex_text(self@),
    {
        encode_hex(self.bytes.as_slice())
    }

    /// The digest that 64 hexadecimal digits of either case spell; there
    /// is none for any other text.
    pub fn from_hex(text: &str) -> (hash: Option<Hash>)
        ensures
            match hash {
                Some(hash) => is_hex(text@) && text@.len() == 2 * HASH_SIZE && hash@ == hex_bytes(
                    text@,
                ),
                None => !(is_hex(text@) && text@.len() == 2 * HASH_SIZE),
            },
    {
        match decode_hex(text) {
            Some(bytes) => Hash::from_slice(bytes.as_slice()),
            None => None,
        }
    }

    /// The raw bytes of the digest.
    pub fn as_bytes(&self) -> (bytes: &[u8; HASH_SIZE])
        ensures
            bytes@ == self@,
    {
        &self.bytes
    }
}

impl PartialEq for Hash {
    fn eq(&self, other: &Hash) -> (equal: bool) {
        bytes_equal(self.bytes.as_slice(), other.bytes.as_slice())
    }
}

impl vstd::std_specs::cmp::PartialEqSpecImpl for Hash {
    open spec fn obeys_eq_spec() -> bool {
        true
    }

    open spec fn eq_spec(&self, other: &Hash) -> bool {
        self@ == other@
    }
}

} // verus!
