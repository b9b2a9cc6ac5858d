//! Public keys and signatures as fixed-size byte strings.
//!
//! The signature scheme itself is not part of this crate: keys are compared
//! and written, signatures are carried.

use vstd::prelude::*;
use crate::crypto::bytes_equal;
use crate::serializer::writer::Writer;

verus! {

/// Number of bytes in a [`PublicKey`].
pub const KEY_LENGTH: usize = 32;

/// Number of bytes in a [`Signature`].
pub const SIGNATURE_LENGTH: usize = 64;

/// The public half of a key pair; it names an account.
#[derive(Clone, Copy, Debug, Eq, Hash)]
pub struct PublicKey {
    pub bytes: [u8; KEY_LENGTH],
}

impl View for PublicKey {
    type V = Seq<u8>;

    open spec fn view(&self) -> Seq<u8> {
        self.bytes@
    }
}

impl PublicKey {
    /// Wraps 32 raw bytes.
    pub fn new(bytes: [u8; KEY_LENGTH]) -> (key: PublicKey)
        ensures
            key@ == bytes@,
    {
        PublicKey { bytes }
    }

    /// The raw bytes of the key.
    pub fn as_bytes(&self) -> (bytes: &[u8; KEY_LENGTH])
        ensures
            bytes@ == self@,
    {
        &self.bytes
    }

    /// Appends the key's bytes, with no prefix.
    pub fn write(&self, writer: &mut Writer)
        ensures
            final(writer)@ == old(writer)@ + self@,
    {
        writer.write_bytes(self.bytes.as_slice());
    }
}

impl PartialEq for PublicKey {
    fn eq(&self, other: &PublicKey) -> (equal: bool) {
        bytes_equal(self.bytes.as_slice(), other.bytes.as_slice())
    }
}

impl vstd::std_specs::cmp::PartialEqSpecImpl for PublicKey {
    open spec fn obeys_eq_spec() -> bool {
        true
    }

    open spec fn eq_spec(&self, other: &PublicKey) -> bool {
        self@ == other@
    }
}

/// A signature over some bytes, as produced by the owner's signer.
#[derive(Clone, Copy, Debug, Eq)]
pub struct Signature {
    pub bytes: [u8; SIGNATURE_LENGTH],
}

impl View for Signature {
    type V = Seq<u8>;

    open spec fn view(&self) -> Seq<u8> {
        self.bytes@
    }
}

impl Signature {
    /// Wraps 64 raw bytes.
    pub fn new(bytes: [u8; SIGNATURE_LENGTH]) -> (signature: Signature)
        ensures
            signature@ == bytes@,
    {
        Signature { bytes }
    }

    /// The raw bytes of the signature.
    pub fn as_bytes(&self) -> (bytes: &[u8; SIGNATURE_LENGTH])
        ensures
            bytes@ == self@,
    {
        &self.bytes
    }
}

impl PartialEq for Signature {
    fn eq(&self, other: &Signature) -> (equal: bool) {
        bytes_equal(self.bytes.as_slice(), other.bytes.as_slice())
    }
}

impl vstd::std_specs::cmp::PartialEqSpecImpl for Signature {
    open spec fn obeys_eq_spec() -> bool {
        true
    }

    open spec fn eq_spec(&self, other: &Signature) -> bool {
        self@ == other@
    }
}

} // verus!
