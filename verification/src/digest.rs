//! The content hash: a 20-byte SHA-1 digest over an object's encoded bytes.

use sha1::Digest;
use vstd::prelude::*;

verus! {

/// The SHA-1 digest of a byte sequence. Its 20 bytes are fixed by the `sha1`
/// crate's implementation of the algorithm and depend on the input alone, so
/// the function is named here and never given a body.
pub uninterp spec fn sha1_of(data: Seq<u8>) -> Seq<u8>;

/// Relies on `sha1::Sha1` (`Digest::update` then `finalize`): the digest is
/// 20 bytes and is a function of the input bytes alone.
#[verifier::external_body]
pub(crate) fn sha1_digest(data: &[u8]) -> (r: [u8; 20])
    ensures
        r@ == sha1_of(data@),
        r@.len() == 20,
{
    let mut hasher = sha1::Sha1::new();
    hasher.update(data);
    let output = hasher.finalize();
    output.try_into().expect("Sha1 hash should be 20 bytes long")
}

/// Law: hashing is deterministic — equal byte sequences have equal digests,
/// whichever call produced them.
pub proof fn lemma_hash_deterministic(a: Seq<u8>, b: Seq<u8>)
    requires
        a == b,
    ensures
        sha1_of(a) == sha1_of(b),
{
}

} // verus!
