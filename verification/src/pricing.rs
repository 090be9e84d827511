//! The price of a swap: constant product, less a fee of 0.3% of what is paid in.

use crate::math::{lemma_scaled_quotient_bound, mul_div};
use vstd::arithmetic::div_mod::*;
use vstd::prelude::*;

verus! {

/// What a swap pays out for `amount_in`, from a pool that holds `reserve_in`
/// of the token paid in and `reserve_out` of the token paid out:
/// `amount_in · 997 · reserve_out / (reserve_in · 1000 + amount_in · 997)`,
/// rounded down. Of every 1000 units paid in, 997 are priced; the remaining 3
/// are the fee, which stays in the pool.
pub open spec fn amount_out(amount_in: nat, reserve_in: nat, reserve_out: nat) -> nat {
    ((amount_in * 997 * reserve_out) / (reserve_in * 1000 + amount_in * 997)) as nat
}

/// A swap never pays out more than the pool holds of the token paid out, and
/// it pays out less than that where the pool holds some of both tokens.
pub proof fn lemma_amount_out_below_reserve(amount_in: nat, reserve_in: nat, reserve_out: nat)
    requires
        reserve_in > 0 || amount_in > 0,
    ensures
        amount_out(amount_in, reserve_in, reserve_out) <= reserve_out,
        reserve_in > 0 && reserve_out > 0 ==> amount_out(amount_in, reserve_in, reserve_out)
            < reserve_out,
{
    let x = (amount_in * 997) as int;
    let d = (reserve_in * 1000 + amount_in * 997) as int;
    let y = reserve_out as int;
    lemma_scaled_quotient_bound(x, y, d);
    if reserve_in > 0 && reserve_out > 0 {
        let out = (x * y) / d;
        lemma_fundamental_div_mod(x * y, d);
        lemma_mod_bound(x * y, d);
        assert(out < y) by (nonlinear_arith)
            requires
                d * out <= x * y,
                0 <= x < d,
                0 < y,
        ;
    }
}

/// A swap does not lower the product of the two reserves: the fee stays in the
/// pool, and the amount paid out is rounded down.
pub proof fn lemma_swap_keeps_product(amount_in: nat, reserve_in: nat, reserve_out: nat)
    requires
        reserve_in > 0 || amount_in > 0,
    ensures
        amount_out(amount_in, reserve_in, reserve_out) <= reserve_out,
        (reserve_in + amount_in) * (reserve_out - amount_out(amount_in, reserve_in, reserve_out))
            >= reserve_in * reserve_out,
{
    lemma_amount_out_below_reserve(amount_in, reserve_in, reserve_out);
    let a = amount_in as int;
    let ri = reserve_in as int;
    let ro = reserve_out as int;
    let n = a * 997 * ro;
    let d = ri * 1000 + a * 997;
    let out = n / d;
    assert(out == amount_out(amount_in, reserve_in, reserve_out)) by {
        lemma_scaled_quotient_bound(a * 997, ro, d);
    }
    lemma_fundamental_div_mod(n, d);
    lemma_mod_bound(n, d);
    assert(d * out <= n);
    assert((ri + a) * (ro - out) >= ri * ro) by (nonlinear_arith)
        requires
            d * out <= a * 997 * ro,
            d == ri * 1000 + a * 997,
            d > 0,
            0 <= out <= ro,
            a >= 0,
            ri >= 0,
    ;
}

/// What a swap pays out for `amount_in`; see [`amount_out`].
///
/// The pool must hold some of the token paid in, or something must be paid in:
/// otherwise the price is a division by zero.
pub fn calculate_amount_out(amount_in: u64, reserve_in: u64, reserve_out: u64) -> (out: u64)
    requires
        reserve_in > 0 || amount_in > 0,
    ensures
        out == amount_out(amount_in as nat, reserve_in as nat, reserve_out as nat),
        out <= reserve_out,
        reserve_in > 0 && reserve_out > 0 ==> out < reserve_out,
{
    let amount_in_with_fee: u128 = (amount_in as u128) * 997;
    let denominator: u128 = (reserve_in as u128) * 1000 + amount_in_with_fee;
    proof {
        lemma_amount_out_below_reserve(amount_in as nat, reserve_in as nat, reserve_out as nat);
    }
    mul_div(amount_in_with_fee, reserve_out, denominator)
}

} // verus!
