//! The hash boundary.
//!
//! Identifier prefixes and suffixes are the first 16 bytes of a
//! cryptographic hash of a byte string, scoped by a short context tag so
//! that identifier hashes cannot collide with hashes computed elsewhere in
//! the runtime.  The hash itself is an external primitive; this module only
//! states that its output is a function of the tag and the input bytes.

use vstd::prelude::*;

verus! {

/// The 16-byte hash of a context tag and a byte string, as computed by the
/// external hash primitive.  The result depends on the two arguments alone.
pub uninterp spec fn hash16_of(tag: Seq<u8>, data: Seq<u8>) -> Seq<u8>;

/// Relies on `blake2b_simd::Params::hash_length` and `State::update`:
/// a 16-byte BLAKE2b digest of the tag followed by the data, a pure
/// function of those bytes.
#[verifier::external_body]
pub fn hash16(tag: &Vec<u8>, data: &Vec<u8>) -> (r: [u8; 16])
    ensures
        r@ == hash16_of(tag@, data@),
{
    let digest = blake2b_simd::Params::new()
        .hash_length(16)
        .to_state()
        .update(tag.as_slice())
        .update(data.as_slice())
        .finalize();
    let mut out = [0u8; 16];
    out.copy_from_slice(digest.as_bytes());
    out
}

} // verus!
