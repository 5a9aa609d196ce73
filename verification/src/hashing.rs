//! The fixed 256-bit hash behind commitments and bytecode digests.

use vstd::prelude::*;

verus! {

/// The SHA-256 digest of a byte sequence. The digest itself is left
/// unspecified: contracts only rely on it being a pure function of the
/// input bytes.
pub uninterp spec fn sha256_of(data: Seq<u8>) -> Seq<u8>;

/// Relies on sha2::Sha256: the digest is 32 bytes and depends on the input
/// bytes alone.
#[verifier::external_body]
pub(crate) fn sha256(data: &Vec<u8>) -> (r: [u8; 32])
    ensures
        r@ == sha256_of(data@),
{
    <sha2::Sha256 as sha2::Digest>::digest(data.as_slice()).into()
}

} // verus!
