//! A liquidity pool, and what adding liquidity, removing liquidity and
//! swapping do to it.

use crate::math::{
    floor_sqrt, isqrt, lemma_floor_sqrt_of_product, lemma_product_fits,
    lemma_scaled_quotient_bound,
};
use crate::pricing::{
    amount_out, calculate_amount_out, lemma_amount_out_below_reserve, lemma_swap_keeps_product,
};
use crate::types::TokenAmount;
use vstd::arithmetic::div_mod::*;
use vstd::prelude::*;

verus! {

/// The pool of one token pair: what it holds of each token, and how many
/// shares are issued against that.
#[derive(Clone, Copy, Debug, PartialEq, Eq, Structural)]
pub struct LiquidityPool {
    pub token0_reserve: TokenAmount,
    pub token1_reserve: TokenAmount,
    pub total_shares: TokenAmount,
}

impl LiquidityPool {
    /// The pool that holds nothing and has issued no shares.
    pub open spec fn spec_empty() -> LiquidityPool {
        LiquidityPool { token0_reserve: 0, token1_reserve: 0, total_shares: 0 }
    }

    /// The pool that holds nothing and has issued no shares.
    #[verifier::when_used_as_spec(spec_empty)]
    pub fn empty() -> (pool: LiquidityPool)
        ensures
            pool == Self::spec_empty(),
    {
        LiquidityPool { token0_reserve: 0, token1_reserve: 0, total_shares: 0 }
    }

    /// Shares are backed: a pool that has issued shares holds some of both
    /// tokens. Every operation keeps this, and the share formulas divide on
    /// the strength of it.
    pub open spec fn funded(self) -> bool {
        self.total_shares > 0 ==> self.token0_reserve > 0 && self.token1_reserve > 0
    }

    /// The product of the two reserves, which a swap never lowers.
    pub open spec fn product(self) -> nat {
        (self.token0_reserve * self.token1_reserve) as nat
    }

    /// The shares minted for a deposit of `amount0` and `amount1`.
    ///
    /// For a pool without shares: the square root of `amount0 · amount1`,
    /// rounded down. Otherwise the lesser of `amount0 · total_shares /
    /// token0_reserve` and `amount1 · total_shares / token1_reserve`, each
    /// rounded down; what the deposit holds of one token beyond the pool's
    /// ratio earns nothing.
    pub open spec fn minted_shares(self, amount0: TokenAmount, amount1: TokenAmount) -> nat {
        if self.total_shares == 0 {
            floor_sqrt((amount0 * amount1) as nat)
        } else {
            let by0 = (amount0 * self.total_shares) / (self.token0_reserve as int);
            let by1 = (amount1 * self.total_shares) / (self.token1_reserve as int);
            (if by0 <= by1 { by0 } else { by1 }) as nat
        }
    }

    /// Whether the pool can take a deposit: both reserves and the number of
    /// shares stay within 64 bits.
    pub open spec fn accepts_deposit(self, amount0: TokenAmount, amount1: TokenAmount) -> bool {
        &&& self.token0_reserve + amount0 <= u64::MAX
        &&& self.token1_reserve + amount1 <= u64::MAX
        &&& self.total_shares + self.minted_shares(amount0, amount1) <= u64::MAX
    }

    /// The pool after a deposit that it accepts.
    pub open spec fn after_deposit(self, amount0: TokenAmount, amount1: TokenAmount) -> LiquidityPool {
        LiquidityPool {
            token0_reserve: (self.token0_reserve + amount0) as u64,
            token1_reserve: (self.token1_reserve + amount1) as u64,
            total_shares: (self.total_shares + self.minted_shares(amount0, amount1)) as u64,
        }
    }

    /// What redeeming `shares` pays out of the first token:
    /// `shares · token0_reserve / total_shares`, rounded down.
    pub open spec fn redeemed0(self, shares: TokenAmount) -> nat {
        ((shares * self.token0_reserve) / (self.total_shares as int)) as nat
    }

    /// What redeeming `shares` pays out of the second token:
    /// `shares · token1_reserve / total_shares`, rounded down.
    pub open spec fn redeemed1(self, shares: TokenAmount) -> nat {
        ((shares * self.token1_reserve) / (self.total_shares as int)) as nat
    }

    /// The pool after `shares` of it, no more than it has issued, were redeemed.
    pub open spec fn after_withdrawal(self, shares: TokenAmount) -> LiquidityPool {
        LiquidityPool {
            token0_reserve: (self.token0_reserve - self.redeemed0(shares)) as u64,
            token1_reserve: (self.token1_reserve - self.redeemed1(shares)) as u64,
            total_shares: (self.total_shares - shares) as u64,
        }
    }

    /// What the pool holds of the token that a swap pays in.
    pub open spec fn reserve_in(self, is_token0: bool) -> TokenAmount {
        if is_token0 {
            self.token0_reserve
        } else {
            self.token1_reserve
        }
    }

    /// What the pool holds of the token that a swap pays out.
    pub open spec fn reserve_out(self, is_token0: bool) -> TokenAmount {
        if is_token0 {
            self.token1_reserve
        } else {
            self.token0_reserve
        }
    }

    /// Whether a swap of `amount_in` has a price: the pool holds some of the
    /// token paid in, or something is paid in.
    pub open spec fn prices(self, amount_in: TokenAmount, is_token0: bool) -> bool {
        self.reserve_in(is_token0) > 0 || amount_in > 0
    }

    /// What a swap of `amount_in` pays out.
    pub open spec fn swap_output(self, amount_in: TokenAmount, is_token0: bool) -> nat {
        amount_out(
            amount_in as nat,
            self.reserve_in(is_token0) as nat,
            self.reserve_out(is_token0) as nat,
        )
    }

    /// Whether the pool can take a swap: it has a price, and the reserve paid
    /// into stays within 64 bits.
    pub open spec fn accepts_swap(self, amount_in: TokenAmount, is_token0: bool) -> bool {
        &&& self.prices(amount_in, is_token0)
        &&& self.reserve_in(is_token0) + amount_in <= u64::MAX
    }

    /// The pool after a swap that it accepts.
    pub open spec fn after_swap(self, amount_in: TokenAmount, is_token0: bool) -> LiquidityPool {
        let grown = (self.reserve_in(is_token0) + amount_in) as u64;
        let shrunk = (self.reserve_out(is_token0) - self.swap_output(amount_in, is_token0)) as u64;
        if is_token0 {
            LiquidityPool { token0_reserve: grown, token1_reserve: shrunk, ..self }
        } else {
            LiquidityPool { token0_reserve: shrunk, token1_reserve: grown, ..self }
        }
    }

    /// Redeeming no more shares than are issued pays out no more than the pool
    /// holds, and less than that of a token it holds unless all shares are
    /// redeemed.
    pub proof fn lemma_redeemed_bounds(self, shares: TokenAmount)
        requires
            0 < self.total_shares,
            shares <= self.total_shares,
        ensures
            self.redeemed0(shares) <= self.token0_reserve,
            self.redeemed1(shares) <= self.token1_reserve,
            shares < self.total_shares && self.token0_reserve > 0 ==> self.redeemed0(shares)
                < self.token0_reserve,
            shares < self.total_shares && self.token1_reserve > 0 ==> self.redeemed1(shares)
                < self.token1_reserve,
    {
        let t = self.total_shares as int;
        let s = shares as int;
        lemma_scaled_quotient_bound(s, self.token0_reserve as int, t);
        lemma_scaled_quotient_bound(s, self.token1_reserve as int, t);
        if shares < self.total_shares {
            Self::lemma_strict_share(s, self.token0_reserve as int, t);
            Self::lemma_strict_share(s, self.token1_reserve as int, t);
        }
    }

    proof fn lemma_strict_share(s: int, r: int, t: int)
        requires
            0 <= s < t,
            0 <= r,
        ensures
            r > 0 ==> (s * r) / t < r,
    {
        if r > 0 {
            let q = (s * r) / t;
            lemma_fundamental_div_mod(s * r, t);
            lemma_mod_bound(s * r, t);
            assert(q < r) by (nonlinear_arith)
                requires
                    t * q <= s * r,
                    0 <= s < t,
                    0 < r,
            ;
        }
    }

    /// A deposit keeps shares backed.
    pub proof fn lemma_deposit_keeps_funded(self, amount0: TokenAmount, amount1: TokenAmount)
        requires
            self.funded(),
            self.accepts_deposit(amount0, amount1),
        ensures
            self.after_deposit(amount0, amount1).funded(),
    {
        lemma_floor_sqrt_of_product(amount0 as nat, amount1 as nat);
    }

    /// A withdrawal keeps shares backed.
    pub proof fn lemma_withdrawal_keeps_funded(self, shares: TokenAmount)
        requires
            self.funded(),
            0 < self.total_shares,
            shares <= self.total_shares,
        ensures
            self.after_withdrawal(shares).funded(),
    {
        self.lemma_redeemed_bounds(shares);
    }

    /// A swap pays out no more than the pool holds, does not lower the
    /// product of the reserves, and keeps shares backed.
    pub proof fn lemma_swap_keeps_product_and_funded(self, amount_in: TokenAmount, is_token0: bool)
        requires
            self.accepts_swap(amount_in, is_token0),
        ensures
            self.swap_output(amount_in, is_token0) <= self.reserve_out(is_token0),
            self.after_swap(amount_in, is_token0).product() >= self.product(),
            self.after_swap(amount_in, is_token0).total_shares == self.total_shares,
            self.funded() ==> self.after_swap(amount_in, is_token0).funded(),
    {
        let after = self.after_swap(amount_in, is_token0);
        lemma_swap_keeps_product(
            amount_in as nat,
            self.reserve_in(is_token0) as nat,
            self.reserve_out(is_token0) as nat,
        );
        lemma_amount_out_below_reserve(
            amount_in as nat,
            self.reserve_in(is_token0) as nat,
            self.reserve_out(is_token0) as nat,
        );
        vstd::arithmetic::mul::lemma_mul_is_commutative(
            self.token0_reserve as int,
            self.token1_reserve as int,
        );
        vstd::arithmetic::mul::lemma_mul_is_commutative(
            after.token0_reserve as int,
            after.token1_reserve as int,
        );
    }

    /// The shares that a deposit would mint; see [`Self::minted_shares`].
    pub fn quote_deposit(&self, amount0: TokenAmount, amount1: TokenAmount) -> (shares: u128)
        requires
            self.funded(),
        ensures
            shares == self.minted_shares(amount0, amount1),
    {
        proof {
            lemma_product_fits(amount0, amount1);
            lemma_product_fits(amount0, self.total_shares);
            lemma_product_fits(amount1, self.total_shares);
        }
        if self.total_shares == 0 {
            isqrt((amount0 as u128) * (amount1 as u128)) as u128
        } else {
            let by0: u128 = ((amount0 as u128) * (self.total_shares as u128)) / (
            self.token0_reserve as u128);
            let by1: u128 = ((amount1 as u128) * (self.total_shares as u128)) / (
            self.token1_reserve as u128);
            if by0 <= by1 {
                by0
            } else {
                by1
            }
        }
    }

    /// Takes a deposit of `amount0` and `amount1` and mints shares for it.
    /// Returns the number of shares minted.
    pub fn deposit(&mut self, amount0: TokenAmount, amount1: TokenAmount) -> (shares: TokenAmount)
        requires
            old(self).funded(),
            old(self).accepts_deposit(amount0, amount1),
        ensures
            shares == old(self).minted_shares(amount0, amount1),
            *final(self) == old(self).after_deposit(amount0, amount1),
            final(self).funded(),
    {
        let minted: u128 = self.quote_deposit(amount0, amount1);
        proof {
            self.lemma_deposit_keeps_funded(amount0, amount1);
        }
        let shares: u64 = minted as u64;
        self.token0_reserve = self.token0_reserve + amount0;
        self.token1_reserve = self.token1_reserve + amount1;
        self.total_shares = self.total_shares + shares;
        shares
    }

    /// What redeeming `shares` would pay out of each token; see
    /// [`Self::redeemed0`] and [`Self::redeemed1`].
    pub fn quote_withdrawal(&self, shares: TokenAmount) -> (amounts: (TokenAmount, TokenAmount))
        requires
            0 < self.total_shares,
            shares <= self.total_shares,
        ensures
            amounts.0 == self.redeemed0(shares),
            amounts.1 == self.redeemed1(shares),
            amounts.0 <= self.token0_reserve,
            amounts.1 <= self.token1_reserve,
    {
        proof {
            lemma_product_fits(shares, self.token0_reserve);
            lemma_product_fits(shares, self.token1_reserve);
            self.lemma_redeemed_bounds(shares);
        }
        let amount0: u128 = ((shares as u128) * (self.token0_reserve as u128)) / (
        self.total_shares as u128);
        let amount1: u128 = ((shares as u128) * (self.token1_reserve as u128)) / (
        self.total_shares as u128);
        (amount0 as u64, amount1 as u64)
    }

    /// Redeems `shares`: pays out their part of each reserve, rounded down,
    /// and cancels them. Returns the two amounts paid out.
    pub fn withdraw(&mut self, shares: TokenAmount) -> (amounts: (TokenAmount, TokenAmount))
        requires
            old(self).funded(),
            0 < old(self).total_shares,
            shares <= old(self).total_shares,
        ensures
            amounts.0 == old(self).redeemed0(shares),
            amounts.1 == old(self).redeemed1(shares),
            *final(self) == old(self).after_withdrawal(shares),
            final(self).funded(),
    {
        let amounts = self.quote_withdrawal(shares);
        proof {
            self.lemma_withdrawal_keeps_funded(shares);
        }
        self.token0_reserve = self.token0_reserve - amounts.0;
        self.token1_reserve = self.token1_reserve - amounts.1;
        self.total_shares = self.total_shares - shares;
        amounts
    }

    /// What a swap of `amount_in` would pay out; see [`Self::swap_output`].
    pub fn quote_swap(&self, amount_in: TokenAmount, is_token0: bool) -> (out: TokenAmount)
        requires
            self.prices(amount_in, is_token0),
        ensures
            out == self.swap_output(amount_in, is_token0),
            out <= self.reserve_out(is_token0),
            self.reserve_in(is_token0) > 0 && self.reserve_out(is_token0) > 0 ==> out
                < self.reserve_out(is_token0),
    {
        if is_token0 {
            calculate_amount_out(amount_in, self.token0_reserve, self.token1_reserve)
        } else {
            calculate_amount_out(amount_in, self.token1_reserve, self.token0_reserve)
        }
    }

    /// Swaps: takes `amount_in` of one token and pays out of the other.
    /// Returns the amount paid out. The product of the reserves does not fall.
    pub fn swap(&mut self, amount_in: TokenAmount, is_token0: bool) -> (out: TokenAmount)
        requires
            old(self).accepts_swap(amount_in, is_token0),
        ensures
            out == old(self).swap_output(amount_in, is_token0),
            *final(self) == old(self).after_swap(amount_in, is_token0),
            final(self).product() >= old(self).product(),
            old(self).funded() ==> final(self).funded(),
    {
        let out: u64 = self.quote_swap(amount_in, is_token0);
        proof {
            self.lemma_swap_keeps_product_and_funded(amount_in, is_token0);
        }
        if is_token0 {
            self.token0_reserve = self.token0_reserve + amount_in;
            self.token1_reserve = self.token1_reserve - out;
        } else {
            self.token1_reserve = self.token1_reserve + amount_in;
            self.token0_reserve = self.token0_reserve - out;
        }
        out
    }
}

} // verus!
