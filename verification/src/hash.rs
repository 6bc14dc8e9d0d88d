//! The 256-bit hash primitive.  The engine consumes the hash function;
//! it does not implement it.  Its value on a given input is therefore
//! only a name, `sha256_of`, applied by the one trusted wrapper below.

use sha2::Digest;
use vstd::prelude::*;

verus! {

/// The SHA-256 digest of `data`: a function of the input bytes alone.
pub uninterp spec fn sha256_of(data: Seq<u8>) -> Seq<u8>;

/// Relies on sha2's `Sha256::digest`: a one-shot SHA-256, 32 output
/// bytes, determined by the input bytes alone.
#[verifier::external_body]
pub fn sha256(data: &[u8]) -> (r: Vec<u8>)
    ensures
        r@ == sha256_of(data@),
        r@.len() == 32,
{
    sha2::Sha256::digest(data).to_vec()
}

} // verus!
