//! Sources of randomness and fresh identifiers.
//!
//! Every stochastic step of the venue (slippage, requotes, participant
//! activity, synthetic noise) draws through these wrappers, so the verified
//! code states exactly what holds of every possible outcome.

use vstd::prelude::*;

verus! {

/// Relies on rand::Rng::gen_range over rand::thread_rng: returns a
/// uniformly distributed value in the half-open range `[lo, hi)`; panics
/// only on an empty range, which the precondition rules out.
#[verifier::external_body]
pub fn gen_range_u64(lo: u64, hi: u64) -> (r: u64)
    requires
        lo < hi,
    ensures
        lo <= r < hi,
{
    rand::Rng::gen_range(&mut rand::thread_rng(), lo..hi)
}

/// Relies on uuid::Uuid::new_v4 and uuid::Uuid::as_u128: a freshly drawn
/// random identifier. Nothing is promised of the value.
#[verifier::external_body]
pub fn fresh_id() -> u128 {
    uuid::Uuid::new_v4().as_u128()
}

/// Relies on uuid::Uuid::new_v4 and its Display implementation, which
/// renders the hyphenated lowercase form: a fresh random identifier string
/// of 36 characters.
#[verifier::external_body]
pub fn fresh_id_string() -> (r: String)
    ensures
        r@.len() == 36,
{
    uuid::Uuid::new_v4().to_string()
}

/// A draw in `[lo, hi)` for signed bounds.
pub fn gen_range_i64(lo: i64, hi: i64) -> (r: i64)
    requires
        lo < hi,
        -1_000_000_000_000_000_000 <= lo,
        hi <= 1_000_000_000_000_000_000,
    ensures
        lo <= r < hi,
{
    let span: u64 = (hi - lo) as u64;
    let draw: u64 = gen_range_u64(0, span);
    lo + draw as i64
}

/// A Bernoulli draw: true with probability `p_ppm` parts per million.
pub fn gen_bool_ppm(p_ppm: u64) -> (r: bool)
    ensures
        p_ppm == 0 ==> !r,
        p_ppm >= 1_000_000 ==> r,
{
    let draw: u64 = gen_range_u64(0, 1_000_000);
    draw < p_ppm
}

} // verus!
