//! Random bytes.
use vstd::prelude::*;

verus! {

/// `OsRng::fill_bytes` fills `n` bytes from the random source of the operating
/// system. Nothing is claimed of the bytes but their number; the call panics
/// if that source fails.
#[verifier::external_body]
pub(crate) fn random_bytes(n: usize) -> (r: Vec<u8>)
    ensures
        r@.len() == n,
{
    let mut r = vec![0u8; n];
    rand::RngCore::fill_bytes(&mut rand::rngs::OsRng, &mut r);
    r
}

} // verus!
