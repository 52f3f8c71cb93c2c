//! Incremental CRC-32 computation, backed by the `crc32fast` crate.
//!
//! The archive stream folds every content byte it forwards into a running
//! checksum; the finished digest is embedded in the entry's data descriptor
//! and central-directory record. The digest itself is left abstract: it is a
//! pure function of the bytes fed in, named `crc32_of`, and nothing more is
//! assumed about its value.

use vstd::prelude::*;

verus! {

/// The CRC-32 (IEEE) digest of a byte sequence, exactly as `crc32fast`
/// computes it. The digest depends on the bytes alone; its value is not
/// modelled further.
pub uninterp spec fn crc32_of(data: Seq<u8>) -> u32;

#[verifier::external_type_specification]
#[verifier::external_body]
pub struct ExHasher(crc32fast::Hasher);

/// Relies on `crc32fast::Hasher::new` for a fresh hasher state; nothing is
/// claimed of the returned value, whose meaning is tracked by `Crc32`.
#[verifier::external_body]
fn hasher_new() -> crc32fast::Hasher {
    crc32fast::Hasher::new()
}

/// Running CRC-32 state over the bytes fed in so far.
pub struct Crc32 {
    inner: crc32fast::Hasher,
    fed: Ghost<Seq<u8>>,
}

impl Crc32 {
    /// The bytes fed into this state so far.
    pub closed spec fn bytes(self) -> Seq<u8> {
        self.fed@
    }

    /// A fresh state over no bytes.
    pub fn new() -> (r: Crc32)
        ensures
            r.bytes() == Seq::<u8>::empty(),
    {
        Crc32 { inner: hasher_new(), fed: Ghost(Seq::empty()) }
    }

    /// Relies on `crc32fast::Hasher::update`: folds `data` into the state, so
    /// that the state now covers the old bytes followed by `data`.
    #[verifier::external_body]
    pub fn update(&mut self, data: &[u8])
        ensures
            final(self).bytes() == old(self).bytes() + data@,
    {
        self.inner.update(data);
    }

    /// Relies on `crc32fast::Hasher::finalize` (on a clone of the state, so
    /// the state stays usable): the digest of the bytes fed in so far, a
    /// function of those bytes alone.
    #[verifier::external_body]
    pub fn digest(&self) -> (r: u32)
        ensures
            r == crc32_of(self.bytes()),
    {
        self.inner.clone().finalize()
    }
}

} // verus!
