//! The underlying hash: keccak-256, consumed as a black box whose digest is
//! a function of the input bytes alone.

use vstd::prelude::*;

verus! {

/// The 32-byte keccak-256 digest of a byte string. The digest depends on the
/// input bytes alone; its value is given by the hash implementation and is
/// not modelled further here.
pub uninterp spec fn keccak256_of(data: Seq<u8>) -> Seq<u8>;

/// Relies on tiny_keccak::Keccak::v256 (with Hasher::update / finalize):
/// keccak-256 over `data`, a 32-byte digest determined by the input bytes.
#[verifier::external_body]
pub fn keccak256(data: &[u8]) -> (r: Vec<u8>)
    ensures
        r@ == keccak256_of(data@),
        r@.len() == 32,
{
    let mut out = [0u8; 32];
    let mut hasher = tiny_keccak::Keccak::v256();
    tiny_keccak::Hasher::update(&mut hasher, data);
    tiny_keccak::Hasher::finalize(hasher, &mut out);
    out.to_vec()
}

} // verus!
