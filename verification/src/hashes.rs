//! The SHA-2 hash functions.
use sha2::Digest;
use vstd::prelude::*;

verus! {

/// The SHA-256 digest of some bytes.
pub uninterp spec fn sha256_digest(data: Seq<u8>) -> Seq<u8>;

/// The SHA-384 digest of some bytes.
pub uninterp spec fn sha384_digest(data: Seq<u8>) -> Seq<u8>;

/// `sha2::Sha256::digest`: 32 bytes that depend on the data alone.
#[verifier::external_body]
pub(crate) fn sha256(data: &[u8]) -> (digest: [u8; 32])
    ensures
        digest@ == sha256_digest(data@),
{
    sha2::Sha256::digest(data).into()
}

/// `sha2::Sha384::digest`: 48 bytes that depend on the data alone.
#[verifier::external_body]
pub(crate) fn sha384(data: &[u8]) -> (digest: [u8; 48])
    ensures
        digest@ == sha384_digest(data@),
{
    sha2::Sha384::digest(data).into()
}

} // verus!
