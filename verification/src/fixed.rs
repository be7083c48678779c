//! Fixed-point representation shared by the whole venue.
//!
//! A price is a `u64` counting micro-units of the quote currency per one
//! base-currency unit (so `1_095_000` is 1.0950). A volume is a `u64`
//! counting whole base-currency units. A money amount (balance, equity,
//! profit) is an `i128` counting micro-units of the quote currency.
//! Relative moves (noise, slippage draws, news impact) are given in parts
//! per million of the price they apply to.

use vstd::prelude::*;

verus! {

/// Micro-units per one unit of quote currency.
pub const PRICE_SCALE: u64 = 1_000_000;

/// Parts-per-million scale for relative moves.
pub const PPM_SCALE: u64 = 1_000_000;

/// Largest representable price (one million quote units per base unit).
pub const PRICE_LIMIT: u64 = 1_000_000_000_000;

/// Largest volume a single order may carry.
pub const VOLUME_LIMIT: u64 = 1_000_000_000_000;

/// Money amounts are clamped to this magnitude.
pub const BALANCE_LIMIT: i128 = 1_000_000_000_000_000_000_000_000_000_000;

/// Clamp an unbounded integer into the valid price band `[1, PRICE_LIMIT]`.
pub open spec fn clamp_price(x: int) -> u64 {
    if x < 1 {
        1u64
    } else if x > PRICE_LIMIT {
        PRICE_LIMIT
    } else {
        x as u64
    }
}

/// Clamp an unbounded money amount into `[-BALANCE_LIMIT, BALANCE_LIMIT]`.
pub open spec fn clamp_money(x: int) -> i128 {
    if x < -BALANCE_LIMIT {
        (-BALANCE_LIMIT) as i128
    } else if x > BALANCE_LIMIT {
        BALANCE_LIMIT
    } else {
        x as i128
    }
}

/// Scale `price` by `(PPM_SCALE + ppm) / PPM_SCALE`, truncating, and clamp
/// the result into the valid price band.
pub open spec fn scale_by_ppm(price: u64, ppm: i64) -> u64 {
    clamp_price(price * (PPM_SCALE + ppm) / (PPM_SCALE as int))
}

/// Apply a relative move of `ppm` parts per million to `price`.
pub fn apply_ppm(price: u64, ppm: i64) -> (r: u64)
    requires
        price <= PRICE_LIMIT,
        -1_000_000 <= ppm <= 1_000_000,
    ensures
        r == scale_by_ppm(price, ppm),
        1 <= r <= PRICE_LIMIT,
        ppm >= 0 && price >= 1 ==> r >= price,
        ppm <= 0 && price >= 1 ==> r <= price,
{
    let factor: u64 = (PPM_SCALE as i64 + ppm) as u64;
    proof {
        assert(price * factor <= 2_000_000_000_000_000_000) by (nonlinear_arith)
            requires 0 <= price <= 1_000_000_000_000 && 0 <= factor <= 2_000_000;
    }
    let product: u128 = (price as u128) * (factor as u128);
    let scaled: u128 = product / (PPM_SCALE as u128);
    proof {
        let p = price as int;
        let f = factor as int;
        let m = PPM_SCALE as int;
        if ppm >= 0 && price >= 1 {
            vstd::arithmetic::mul::lemma_mul_inequality(m, f, p);
            assert(p * m <= p * f) by {
                vstd::arithmetic::mul::lemma_mul_is_commutative(m, p);
                vstd::arithmetic::mul::lemma_mul_is_commutative(f, p);
            }
            vstd::arithmetic::div_mod::lemma_div_is_ordered(p * m, p * f, m);
            vstd::arithmetic::div_mod::lemma_div_multiples_vanish(p, m);
            assert(p * m == m * p) by {
                vstd::arithmetic::mul::lemma_mul_is_commutative(p, m);
            }
            assert(scaled >= p);
        }
        if ppm <= 0 && price >= 1 {
            vstd::arithmetic::mul::lemma_mul_inequality(f, m, p);
            assert(p * f <= p * m) by {
                vstd::arithmetic::mul::lemma_mul_is_commutative(m, p);
                vstd::arithmetic::mul::lemma_mul_is_commutative(f, p);
            }
            vstd::arithmetic::div_mod::lemma_div_is_ordered(p * f, p * m, m);
            vstd::arithmetic::div_mod::lemma_div_multiples_vanish(p, m);
            assert(p * m == m * p) by {
                vstd::arithmetic::mul::lemma_mul_is_commutative(p, m);
            }
            assert(scaled <= p);
        }
    }
    if scaled < 1 {
        1
    } else if scaled > PRICE_LIMIT as u128 {
        PRICE_LIMIT
    } else {
        scaled as u64
    }
}

/// Integer square root: the largest `r` with `r * r <= x`.
pub fn isqrt(x: u128) -> (r: u128)
    ensures
        r * r <= x,
        (r + 1) * (r + 1) > x,
{
    let mut lo: u128 = 0;
    let mut hi: u128 = 18_446_744_073_709_551_616;
    while lo + 1 < hi
        invariant
            lo < hi,
            hi <= 18_446_744_073_709_551_616,
            lo * lo <= x,
            hi * hi > x,
        decreases hi - lo,
    {
        let mid: u128 = lo + (hi - lo) / 2;
        proof {
            assert(mid < hi);
            assert(mid * mid < 340_282_366_920_938_463_463_374_607_431_768_211_456)
                by (nonlinear_arith)
                requires 0 <= mid < 18_446_744_073_709_551_616u128;
        }
        if mid * mid <= x {
            lo = mid;
        } else {
            hi = mid;
        }
    }
    lo
}

/// Add two money amounts, clamping the mathematical sum into the valid band.
pub fn money_add(a: i128, b: i128) -> (r: i128)
    ensures
        r == clamp_money(a + b),
{
    if a >= 0 && b > i128::MAX - a {
        BALANCE_LIMIT
    } else if a < 0 && b < i128::MIN - a {
        -BALANCE_LIMIT
    } else {
        let s: i128 = a + b;
        if s > BALANCE_LIMIT {
            BALANCE_LIMIT
        } else if s < -BALANCE_LIMIT {
            -BALANCE_LIMIT
        } else {
            s
        }
    }
}

} // verus!
