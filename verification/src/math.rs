//! Integer arithmetic that the pool formulas need: the square root rounded
//! down, and a product divided by a number where the product itself does not
//! fit in 128 bits.

use vstd::arithmetic::div_mod::*;
use vstd::arithmetic::mul::*;
use vstd::prelude::*;

verus! {

/// `r` is the square root of `n` rounded down: the one natural number with
/// `r² ≤ n < (r + 1)²`.
pub open spec fn is_floor_sqrt(n: nat, r: nat) -> bool {
    r * r <= n < (r + 1) * (r + 1)
}

/// The square root of `n`, rounded down.
pub open spec fn floor_sqrt(n: nat) -> nat {
    choose|r: nat| is_floor_sqrt(n, r)
}

/// Every natural number has a rounded-down square root.
pub proof fn lemma_floor_sqrt_exists(n: nat)
    ensures
        exists|r: nat| is_floor_sqrt(n, r),
    decreases n,
{
    if n == 0 {
        assert(0nat * 0nat == 0 && (0nat + 1) * (0nat + 1) == 1) by (nonlinear_arith);
        assert(is_floor_sqrt(0, 0));
    } else {
        let m = (n - 1) as nat;
        lemma_floor_sqrt_exists(m);
        let r = floor_sqrt(m);
        if n == (r + 1) * (r + 1) {
            assert((r + 1) * (r + 1) < (r + 2) * (r + 2)) by (nonlinear_arith);
            assert(is_floor_sqrt(n, r + 1));
        } else {
            assert(is_floor_sqrt(n, r));
        }
    }
}

/// Squaring is monotone on the natural numbers.
pub proof fn lemma_square_monotone(a: nat, b: nat)
    requires
        a <= b,
    ensures
        a * a <= b * b,
{
    assert(a * a <= b * b) by (nonlinear_arith)
        requires
            a <= b,
    ;
}

/// No number has two rounded-down square roots.
pub proof fn lemma_floor_sqrt_unique(n: nat, r1: nat, r2: nat)
    requires
        is_floor_sqrt(n, r1),
        is_floor_sqrt(n, r2),
    ensures
        r1 == r2,
{
    if r1 < r2 {
        lemma_square_monotone(r1 + 1, r2);
    } else if r2 < r1 {
        lemma_square_monotone(r2 + 1, r1);
    }
}

/// `floor_sqrt(n)` is the rounded-down square root of `n`, and nothing else is.
pub proof fn lemma_floor_sqrt(n: nat)
    ensures
        is_floor_sqrt(n, floor_sqrt(n)),
        forall|r: nat| is_floor_sqrt(n, r) ==> r == floor_sqrt(n),
{
    lemma_floor_sqrt_exists(n);
    assert forall|r: nat| is_floor_sqrt(n, r) implies r == floor_sqrt(n) by {
        lemma_floor_sqrt_unique(n, r, floor_sqrt(n));
    }
}

/// The square root of a product is at most the greater factor, and it is zero
/// only where a factor is zero.
pub proof fn lemma_floor_sqrt_of_product(a: nat, b: nat)
    ensures
        floor_sqrt(a * b) <= if a <= b { b } else { a },
        floor_sqrt(a * b) > 0 <==> a > 0 && b > 0,
{
    lemma_floor_sqrt(a * b);
    let r = floor_sqrt(a * b);
    let m = if a <= b { b } else { a };
    assert(a * b > 0 <==> a > 0 && b > 0) by (nonlinear_arith);
    assert(r > 0 ==> r * r > 0) by (nonlinear_arith);
    assert(r == 0 ==> (r + 1) * (r + 1) == 1) by (nonlinear_arith);
    if r > m {
        lemma_square_monotone(m + 1, r);
        assert(a * b <= m * m) by (nonlinear_arith)
            requires
                a <= m,
                b <= m,
        ;
        assert(m * m < (m + 1) * (m + 1)) by (nonlinear_arith);
    }
}

/// The square root of `n`, rounded down.
pub fn isqrt(n: u128) -> (r: u64)
    ensures
        r == floor_sqrt(n as nat),
{
    let mut lo: u128 = 0;
    let mut hi: u128 = 0x1_0000_0000_0000_0000;
    assert(n < hi * hi) by (nonlinear_arith)
        requires
            hi == 0x1_0000_0000_0000_0000u128,
            n <= u128::MAX,
    ;
    while hi - lo > 1
        invariant
            lo < hi <= 0x1_0000_0000_0000_0000,
            lo * lo <= n < hi * hi,
        decreases hi - lo,
    {
        let mid: u128 = lo + (hi - lo) / 2;
        assert(mid * mid < 0x1_0000_0000_0000_0000 * 0x1_0000_0000_0000_0000) by (nonlinear_arith)
            requires
                mid < 0x1_0000_0000_0000_0000,
        ;
        if mid * mid <= n {
            lo = mid;
        } else {
            hi = mid;
        }
    }
    proof {
        assert(is_floor_sqrt(n as nat, lo as nat));
        lemma_floor_sqrt(n as nat);
    }
    lo as u64
}

/// The product of two 64-bit numbers fits in 128 bits.
pub proof fn lemma_product_fits(a: u64, b: u64)
    ensures
        0 <= a * b <= u128::MAX,
{
    assert(0 <= a * b <= 0xffff_ffff_ffff_ffff * 0xffff_ffff_ffff_ffff) by (nonlinear_arith)
        requires
            0 <= a <= 0xffff_ffff_ffff_ffff,
            0 <= b <= 0xffff_ffff_ffff_ffff,
    ;
}

/// The greatest divisor that [`mul_div`] takes: 2 to the 95th power.
pub const MUL_DIV_LIMIT: u128 = 0x8000_0000_0000_0000_0000_0000;

/// A quotient does not exceed a factor of its dividend when the other factor
/// does not exceed the divisor.
pub proof fn lemma_scaled_quotient_bound(x: int, y: int, d: int)
    requires
        0 <= x <= d,
        0 < d,
        0 <= y,
    ensures
        0 <= (x * y) / d <= y,
{
    assert(0 <= x * y <= y * d) by (nonlinear_arith)
        requires
            0 <= x <= d,
            0 <= y,
    ;
    lemma_div_is_ordered(x * y, y * d, d);
    lemma_div_multiples_vanish(y, d);
    lemma_mul_is_commutative(y, d);
    lemma_div_pos_is_pos(x * y, d);
}

/// `x * y / d`, rounded down, where `x * y` may need more than 128 bits.
///
/// The multiplier is taken in two halves of 32 bits, so that every
/// intermediate value stays below 2 to the 128th power.
pub fn mul_div(x: u128, y: u64, d: u128) -> (q: u64)
    requires
        0 < d <= MUL_DIV_LIMIT,
        x <= d,
    ensures
        q == (x * y) / (d as int),
{
    let half: u128 = 0x1_0000_0000;
    let hi: u128 = (y / 0x1_0000_0000) as u128;
    let lo: u128 = (y % 0x1_0000_0000) as u128;
    assert(x * hi < 0x8000_0000_0000_0000_0000_0000_0000_0000) by (nonlinear_arith)
        requires
            x <= 0x8000_0000_0000_0000_0000_0000,
            hi < 0x1_0000_0000,
    ;
    assert(x * lo < 0x8000_0000_0000_0000_0000_0000_0000_0000) by (nonlinear_arith)
        requires
            x <= 0x8000_0000_0000_0000_0000_0000,
            lo < 0x1_0000_0000,
    ;
    let t: u128 = x * hi;
    let q1: u128 = t / d;
    let r1: u128 = t % d;
    let rest: u128 = r1 * half + x * lo;
    let q2: u128 = rest / d;
    proof {
        let xi = x as int;
        let di = d as int;
        lemma_fundamental_div_mod(t as int, di);
        assert(xi * y == (q1 * half) * di + rest) by (nonlinear_arith)
            requires
                y == hi * half + lo,
                t == xi * hi,
                t == di * q1 + r1,
                rest == r1 * half + xi * lo,
        ;
        lemma_hoist_over_denominator(rest as int, q1 * half, d as nat);
        assert((xi * y) / di == q1 * half + q2);
        lemma_scaled_quotient_bound(xi, y as int, di);
    }
    (q1 * half + q2) as u64
}

} // verus!
