//! Randomness, drawn from the operating system.
//!
//! Every key pair, Shamir abscissa and content nonce in this crate is derived
//! from bytes produced here. Nothing is promised of the values themselves,
//! only of their count: callers state what holds of every outcome.

use vstd::prelude::*;

verus! {

/// Relies on rand_core::OsRng::fill_bytes: fills a buffer from the operating
/// system's entropy source. Nothing can be promised of the bytes but their
/// number.
#[verifier::external_body]
pub(crate) fn os_random_bytes(n: usize) -> (r: Vec<u8>)
    ensures
        r@.len() == n,
{
    let mut buf = vec![0u8; n];
    rand_core::RngCore::fill_bytes(&mut rand_core::OsRng, &mut buf);
    buf
}

/// A random index below `bound`, folded down from one random 64-bit word.
pub(crate) fn random_index(bound: usize) -> (r: usize)
    requires
        bound >= 1,
    ensures
        r < bound,
{
    let bytes = os_random_bytes(8);
    let word: u64 = crate::bytes::read_u64_le(bytes.as_slice(), 0).unwrap().0;
    (word % (bound as u64)) as usize
}

} // verus!
