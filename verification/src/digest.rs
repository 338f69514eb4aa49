//! Incremental SHA-256 hashing, provided by the `sha2` crate behind a
//! trusted wrapper type. The digest of a byte sequence is named
//! `sha256_of`; the validator never materialises the hashed stream.

use vstd::prelude::*;

verus! {

/// The SHA-256 digest of a byte sequence, as the `sha2` crate computes it:
/// a function of the bytes alone, 32 bytes long.
pub uninterp spec fn sha256_of(data: Seq<u8>) -> Seq<u8>;

/// An incremental SHA-256 hasher (the `sha2` crate's `Sha256` state).
#[verifier::external_body]
pub struct Sha256Hasher {
    inner: sha2::Sha256,
}

/// The bytes fed to an incremental hasher so far.
pub uninterp spec fn hasher_fed(h: Sha256Hasher) -> Seq<u8>;

impl Sha256Hasher {
    /// Relies on `sha2::Sha256::new`: a fresh hasher has absorbed nothing.
    #[verifier::external_body]
    pub fn new() -> (r: Sha256Hasher)
        ensures
            hasher_fed(r) == Seq::<u8>::empty(),
    {
        Sha256Hasher { inner: <sha2::Sha256 as sha2::Digest>::new() }
    }

    /// Relies on `sha2::Sha256::update`: feeding is concatenation.
    #[verifier::external_body]
    pub fn update(&mut self, data: &[u8])
        ensures
            hasher_fed(*final(self)) == hasher_fed(*old(self)) + data@,
    {
        <sha2::Sha256 as sha2::Digest>::update(&mut self.inner, data);
    }

    /// Relies on `sha2::Sha256::finalize`: the digest is a function of the
    /// absorbed bytes alone and is 32 bytes long.
    #[verifier::external_body]
    pub fn finalize(self) -> (r: Vec<u8>)
        ensures
            r@ == sha256_of(hasher_fed(self)),
            r@.len() == 32,
    {
        <sha2::Sha256 as sha2::Digest>::finalize(self.inner).to_vec()
    }
}

/// One-call digest of a byte slice.
pub fn sha256_digest(data: &[u8]) -> (r: Vec<u8>)
    ensures
        r@ == sha256_of(data@),
        r@.len() == 32,
{
    let mut h = Sha256Hasher::new();
    h.update(data);
    proof {
        assert(hasher_fed(h) =~= data@);
    }
    h.finalize()
}

} // verus!
