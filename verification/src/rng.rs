//! Trusted access to the process-wide random number generator.

use rand::Rng;
use rand::RngCore;
use vstd::prelude::*;

verus! {

/// Relies on rand::Rng::gen_range over an i64 range: the sample lies in
/// [lo, hi). Nothing more can be said of a random draw.
#[verifier::external_body]
pub(crate) fn gen_range_i64(lo: i64, hi: i64) -> (r: i64)
    requires
        lo < hi,
    ensures
        lo <= r < hi,
{
    rand::thread_rng().gen_range(lo..hi)
}

/// Relies on rand::RngCore::fill_bytes: it fills the whole buffer, so the
/// result holds exactly 32 bytes. Nothing more can be said of random bytes.
#[verifier::external_body]
pub(crate) fn random_bytes32() -> (r: Vec<u8>)
    ensures
        r@.len() == 32,
{
    let mut buf = [0u8; 32];
    rand::thread_rng().fill_bytes(&mut buf);
    buf.to_vec()
}

} // verus!
