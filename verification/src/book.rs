//! The exchange as a mathematical object: a map of pools and a map of share
//! holdings, with the three operations as functions on them. The executable
//! state is specified against this model, and the laws of the exchange are
//! proved of it.

use crate::keyed::{as_map, distinct, holds, lemma_as_map_finite, lemma_push_inserts, position};
use crate::pool::LiquidityPool;
use crate::types::{
    AccountAddress, AddLiquidityParams, Address, Error, RemoveLiquidityParams, SwapParams,
    TokenAmount, TokenPair,
};
use vstd::prelude::*;

verus! {

/// What a holding is filed under: the pair and the owner.
#[derive(Clone, Copy, Debug, PartialEq, Eq)]
pub struct ShareKey {
    pub pair: TokenPair,
    pub owner: AccountAddress,
}

/// The holdings: how many shares each owner holds of each pair's pool.
pub type Holdings = Map<ShareKey, TokenAmount>;

/// The shares on record under `key`; zero where nothing is on record.
pub open spec fn held(holdings: Holdings, key: ShareKey) -> TokenAmount {
    if holdings.contains_key(key) {
        holdings[key]
    } else {
        0
    }
}

/// The holdings after `amount` was added to the one under `key`. Adding
/// nothing makes no record.
pub open spec fn credited(holdings: Holdings, key: ShareKey, amount: TokenAmount) -> Holdings {
    if amount == 0 {
        holdings
    } else {
        holdings.insert(key, (held(holdings, key) + amount) as u64)
    }
}

/// The holdings after `amount`, no more than is there, was taken from the one
/// under `key`. A holding from which everything is taken is struck off the
/// record.
pub open spec fn debited(holdings: Holdings, key: ShareKey, amount: TokenAmount) -> Holdings {
    if held(holdings, key) == amount {
        holdings.remove(key)
    } else {
        holdings.insert(key, (held(holdings, key) - amount) as u64)
    }
}

/// What one holding counts towards the shares of `pair`: its amount if it is
/// a holding of that pair, and nothing otherwise.
pub open spec fn share_of(key: ShareKey, amount: TokenAmount, pair: TokenPair) -> nat {
    if key.pair == pair {
        amount as nat
    } else {
        0
    }
}

/// The shares of `pair` that are held, summed over all owners.
pub open spec fn issued_shares(holdings: Holdings, pair: TokenPair) -> nat
    decreases holdings.dom().len(),
    when holdings.dom().finite()
{
    if holdings.dom().len() == 0 {
        0
    } else {
        let key = holdings.dom().choose();
        share_of(key, holdings[key], pair) + issued_shares(holdings.remove(key), pair)
    }
}

/// The sum can be taken with any holding first: it is that holding's part
/// plus the sum over the rest.
pub proof fn lemma_issued_shares_split(holdings: Holdings, key: ShareKey, pair: TokenPair)
    requires
        holdings.dom().finite(),
        holdings.contains_key(key),
    ensures
        issued_shares(holdings, pair) == share_of(key, holdings[key], pair) + issued_shares(
            holdings.remove(key),
            pair,
        ),
    decreases holdings.dom().len(),
{
    let first = holdings.dom().choose();
    if first != key {
        let without_first = holdings.remove(first);
        let without_key = holdings.remove(key);
        lemma_issued_shares_split(without_first, key, pair);
        lemma_issued_shares_split(without_key, first, pair);
        assert(without_first.remove(key) =~= without_key.remove(first));
    }
}

/// No holdings, no shares.
pub proof fn lemma_issued_shares_empty(pair: TokenPair)
    ensures
        issued_shares(Map::<ShareKey, TokenAmount>::empty(), pair) == 0,
{
}

/// Setting one holding changes the sum for its pair by the difference, and
/// leaves the sum for every other pair as it was.
pub proof fn lemma_issued_shares_insert(
    holdings: Holdings,
    key: ShareKey,
    amount: TokenAmount,
    pair: TokenPair,
)
    requires
        holdings.dom().finite(),
    ensures
        issued_shares(holdings.insert(key, amount), pair) + (if holdings.contains_key(key) {
            share_of(key, holdings[key], pair)
        } else {
            0
        }) == issued_shares(holdings, pair) + share_of(key, amount, pair),
{
    let after = holdings.insert(key, amount);
    lemma_issued_shares_split(after, key, pair);
    assert(after.remove(key) =~= holdings.remove(key));
    if holdings.contains_key(key) {
        lemma_issued_shares_split(holdings, key, pair);
    } else {
        assert(holdings.remove(key) =~= holdings);
    }
}

/// Dropping one holding lowers the sum for its pair by the holding's amount,
/// and leaves the sum for every other pair as it was.
pub proof fn lemma_issued_shares_remove(holdings: Holdings, key: ShareKey, pair: TokenPair)
    requires
        holdings.dom().finite(),
    ensures
        issued_shares(holdings.remove(key), pair) + (if holdings.contains_key(key) {
            share_of(key, holdings[key], pair)
        } else {
            0
        }) == issued_shares(holdings, pair),
{
    if holdings.contains_key(key) {
        lemma_issued_shares_split(holdings, key, pair);
    } else {
        assert(holdings.remove(key) =~= holdings);
    }
}

/// The shares of `pair` in a list of holdings, summed.
pub open spec fn listed_shares(entries: Seq<(ShareKey, TokenAmount)>, pair: TokenPair) -> nat
    decreases entries.len(),
{
    if entries.len() == 0 {
        0
    } else {
        listed_shares(entries.drop_last(), pair) + share_of(
            entries.last().0,
            entries.last().1,
            pair,
        )
    }
}

/// A list of holdings without a holding of `pair` sums to nothing for it.
pub proof fn lemma_listed_shares_none(entries: Seq<(ShareKey, TokenAmount)>, pair: TokenPair)
    requires
        forall|i: int| 0 <= i < entries.len() ==> (#[trigger] entries[i]).0.pair != pair,
    ensures
        listed_shares(entries, pair) == 0,
    decreases entries.len(),
{
    if entries.len() > 0 {
        let rest = entries.drop_last();
        assert forall|i: int| 0 <= i < rest.len() implies (#[trigger] rest[i]).0.pair != pair by {
            assert(rest[i] == entries[i]);
        }
        lemma_listed_shares_none(rest, pair);
    }
}

/// The sum over the first `n` holdings of a list is no more than the sum
/// over all of it.
pub proof fn lemma_listed_shares_grow(
    entries: Seq<(ShareKey, TokenAmount)>,
    n: int,
    pair: TokenPair,
)
    requires
        0 <= n <= entries.len(),
    ensures
        listed_shares(entries.subrange(0, n), pair) <= listed_shares(entries, pair),
    decreases entries.len() - n,
{
    if n == entries.len() {
        assert(entries.subrange(0, n) == entries);
    } else {
        lemma_listed_shares_grow(entries, n + 1, pair);
        assert(entries.subrange(0, n + 1).drop_last() == entries.subrange(0, n));
    }
}

/// A list of holdings with distinct keys sums to what the holdings it stands
/// for sum to.
pub proof fn lemma_listed_shares_are_issued(
    entries: Seq<(ShareKey, TokenAmount)>,
    pair: TokenPair,
)
    requires
        distinct(entries),
    ensures
        listed_shares(entries, pair) == issued_shares(as_map(entries), pair),
    decreases entries.len(),
{
    if entries.len() == 0 {
        assert(as_map(entries) =~= Map::<ShareKey, TokenAmount>::empty());
    } else {
        let rest = entries.drop_last();
        let last = entries.last();
        assert(distinct(rest)) by {
            assert forall|i: int, j: int| 0 <= i < j < rest.len() implies (#[trigger] rest[i]).0 != (
            #[trigger] rest[j]).0 by {
                assert(rest[i] == entries[i]);
                assert(rest[j] == entries[j]);
            }
        }
        assert(!holds(rest, last.0)) by {
            if holds(rest, last.0) {
                let i = position(rest, last.0);
                assert(rest[i] == entries[i]);
                assert(entries[entries.len() - 1] == last);
            }
        }
        lemma_push_inserts(rest, last.0, last.1);
        assert(rest.push(last) == entries);
        lemma_as_map_finite(rest);
        lemma_issued_shares_insert(as_map(rest), last.0, last.1, pair);
        lemma_listed_shares_are_issued(rest, pair);
    }
}

/// The exchange's books: the pool of each pair that has one, and the holdings.
pub struct Book {
    pub pools: Map<TokenPair, LiquidityPool>,
    pub shares: Holdings,
}

impl Book {
    /// The books of an exchange on which nothing has happened yet.
    pub open spec fn empty() -> Book {
        Book { pools: Map::empty(), shares: Map::empty() }
    }

    /// The pool of `pair`; the empty pool where the pair has none yet.
    pub open spec fn pool(self, pair: TokenPair) -> LiquidityPool {
        if self.pools.contains_key(pair) {
            self.pools[pair]
        } else {
            LiquidityPool::spec_empty()
        }
    }

    /// The shares of `pair` that `owner` holds; zero where nothing is on
    /// record.
    pub open spec fn balance(self, pair: TokenPair, owner: AccountAddress) -> TokenAmount {
        held(self.shares, ShareKey { pair, owner })
    }

    /// The shares of `pair` that are held, summed over all owners.
    pub open spec fn issued(self, pair: TokenPair) -> nat {
        issued_shares(self.shares, pair)
    }

    /// What holds of the books at all times:
    /// - there are finitely many holdings, and none of zero shares;
    /// - every pool that has issued shares holds some of both tokens;
    /// - for every pair, the pool's `total_shares` is the sum of the holdings
    ///   of that pair (and no shares are held of a pair without a pool).
    pub open spec fn wf(self) -> bool {
        &&& self.shares.dom().finite()
        &&& forall|key: ShareKey| self.shares.contains_key(key) ==> self.shares[key] > 0
        &&& forall|pair: TokenPair| self.pools.contains_key(pair) ==> self.pools[pair].funded()
        &&& forall|pair: TokenPair| #[trigger] self.pool(pair).total_shares == self.issued(pair)
    }

    /// How adding liquidity ends: rejected where it would mint fewer shares
    /// than `min_liquidity`, then where the caller is not an account, and
    /// accepted otherwise.
    pub open spec fn add_liquidity_result(self, sender: Address, params: AddLiquidityParams) -> Result<
        (),
        Error,
    > {
        let pool = self.pool(params.token_pair);
        if pool.minted_shares(params.amount0, params.amount1) < params.min_liquidity {
            Err(Error::InsufficientLiquidity)
        } else if sender is Contract {
            Err(Error::ParseParams)
        } else {
            Ok(())
        }
    }

    /// The books after `owner` added liquidity: the pool, made if the pair
    /// had none, took the deposit, and the owner holds the minted shares on
    /// top of what they held.
    pub open spec fn after_add_liquidity(self, owner: AccountAddress, params: AddLiquidityParams) -> Book {
        let pair = params.token_pair;
        let pool = self.pool(pair);
        let minted = pool.minted_shares(params.amount0, params.amount1);
        Book {
            pools: self.pools.insert(pair, pool.after_deposit(params.amount0, params.amount1)),
            shares: credited(self.shares, ShareKey { pair, owner }, minted as u64),
        }
    }

    /// How removing liquidity ends, and what it pays out of each token.
    /// Rejected, in this order: where the caller is not an account; where
    /// the pair has no pool; where the caller has no holding of the pair or
    /// one of fewer than `shares`; where either amount paid out would be
    /// below its minimum.
    pub open spec fn remove_liquidity_result(
        self,
        sender: Address,
        params: RemoveLiquidityParams,
    ) -> Result<(TokenAmount, TokenAmount), Error> {
        let pair = params.token_pair;
        match sender {
            Address::Contract(_) => Err(Error::ParseParams),
            Address::Account(owner) => {
                if !self.pools.contains_key(pair) {
                    Err(Error::PoolNotFound)
                } else if !self.shares.contains_key(ShareKey { pair, owner })
                    || self.shares[ShareKey { pair, owner }] < params.shares {
                    Err(Error::InsufficientShares)
                } else if self.pools[pair].redeemed0(params.shares) < params.min_amount0
                    || self.pools[pair].redeemed1(params.shares) < params.min_amount1 {
                    Err(Error::InsufficientAmount)
                } else {
                    Ok(
                        (
                            self.pools[pair].redeemed0(params.shares) as u64,
                            self.pools[pair].redeemed1(params.shares) as u64,
                        ),
                    )
                }
            },
        }
    }

    /// The books after `owner` removed liquidity: the pool paid out and
    /// cancelled the shares, and the owner's holding is lower by them, or
    /// gone if none are left.
    pub open spec fn after_remove_liquidity(
        self,
        owner: AccountAddress,
        params: RemoveLiquidityParams,
    ) -> Book {
        let pair = params.token_pair;
        Book {
            pools: self.pools.insert(pair, self.pool(pair).after_withdrawal(params.shares)),
            shares: debited(self.shares, ShareKey { pair, owner }, params.shares),
        }
    }

    /// How a swap ends, and what it pays out. Rejected where the pair has no
    /// pool, then where it would pay out less than `min_amount_out`.
    pub open spec fn swap_result(self, params: SwapParams) -> Result<TokenAmount, Error> {
        let pair = params.token_pair;
        if !self.pools.contains_key(pair) {
            Err(Error::PoolNotFound)
        } else if self.pools[pair].swap_output(params.amount_in, params.is_token0)
            < params.min_amount_out {
            Err(Error::InsufficientAmount)
        } else {
            Ok(self.pools[pair].swap_output(params.amount_in, params.is_token0) as u64)
        }
    }

    /// The books after a swap: the pool took `amount_in` and paid out;
    /// holdings are as they were.
    pub open spec fn after_swap(self, params: SwapParams) -> Book {
        let pair = params.token_pair;
        Book {
            pools: self.pools.insert(
                pair,
                self.pool(pair).after_swap(params.amount_in, params.is_token0),
            ),
            shares: self.shares,
        }
    }

    /// The books after a call to add liquidity, accepted or rejected: a
    /// rejected call leaves them as they were.
    pub open spec fn add_liquidity(self, sender: Address, params: AddLiquidityParams) -> Book {
        match sender {
            Address::Account(owner) if self.add_liquidity_result(sender, params) is Ok => {
                self.after_add_liquidity(owner, params)
            },
            _ => self,
        }
    }

    /// The books after a call to remove liquidity, accepted or rejected: a
    /// rejected call leaves them as they were.
    pub open spec fn remove_liquidity(self, sender: Address, params: RemoveLiquidityParams) -> Book {
        match sender {
            Address::Account(owner) if self.remove_liquidity_result(sender, params) is Ok => {
                self.after_remove_liquidity(owner, params)
            },
            _ => self,
        }
    }

    /// The books after a call to swap, accepted or rejected: a rejected call
    /// leaves them as they were.
    pub open spec fn swap(self, params: SwapParams) -> Book {
        if self.swap_result(params) is Ok {
            self.after_swap(params)
        } else {
            self
        }
    }

    /// Whether adding liquidity is within the machine's range: where it is
    /// not rejected, the pool can take the deposit.
    pub open spec fn fits_add_liquidity(self, sender: Address, params: AddLiquidityParams) -> bool {
        self.add_liquidity_result(sender, params) is Ok ==> self.pool(
            params.token_pair,
        ).accepts_deposit(params.amount0, params.amount1)
    }

    /// Whether a swap is within the machine's range: where the pair has a
    /// pool, the swap has a price there, and where it is not rejected the
    /// pool can take what is paid in.
    pub open spec fn fits_swap(self, params: SwapParams) -> bool {
        let pool = self.pool(params.token_pair);
        &&& self.pools.contains_key(params.token_pair) ==> pool.prices(
            params.amount_in,
            params.is_token0,
        )
        &&& self.swap_result(params) is Ok ==> pool.accepts_swap(params.amount_in, params.is_token0)
    }

    /// No owner holds more shares of a pair than its pool has issued.
    pub proof fn lemma_balance_within_issued(self, pair: TokenPair, owner: AccountAddress)
        requires
            self.wf(),
        ensures
            self.balance(pair, owner) <= self.pool(pair).total_shares,
            self.shares.contains_key(ShareKey { pair, owner }) ==> self.pools.contains_key(pair)
                && self.pools[pair].total_shares > 0,
    {
        if self.shares.contains_key(ShareKey { pair, owner }) {
            lemma_issued_shares_split(self.shares, ShareKey { pair, owner }, pair);
            assert(self.pool(pair).total_shares == self.issued(pair));
        }
    }

    /// Adding liquidity keeps the books well-formed; in particular every
    /// pool's `total_shares` stays the sum of the holdings of its pair.
    pub proof fn lemma_add_liquidity_keeps_wf(self, owner: AccountAddress, params: AddLiquidityParams)
        requires
            self.wf(),
            self.pool(params.token_pair).accepts_deposit(params.amount0, params.amount1),
        ensures
            self.after_add_liquidity(owner, params).wf(),
    {
        let pair = params.token_pair;
        let pool = self.pool(pair);
        let minted = pool.minted_shares(params.amount0, params.amount1);
        let after = self.after_add_liquidity(owner, params);
        let key = ShareKey { pair, owner };
        self.lemma_balance_within_issued(pair, owner);
        pool.lemma_deposit_keeps_funded(params.amount0, params.amount1);
        assert forall|other: TokenPair| #[trigger]
            after.pool(other).total_shares == after.issued(other) by {
            assert(self.pool(other).total_shares == self.issued(other));
            if minted != 0 {
                lemma_issued_shares_insert(
                    self.shares,
                    key,
                    (self.balance(pair, owner) + minted) as u64,
                    other,
                );
            }
        }
    }

    /// Removing liquidity keeps the books well-formed; in particular every
    /// pool's `total_shares` stays the sum of the holdings of its pair.
    pub proof fn lemma_remove_liquidity_keeps_wf(
        self,
        owner: AccountAddress,
        params: RemoveLiquidityParams,
    )
        requires
            self.wf(),
            self.remove_liquidity_result(Address::Account(owner), params) is Ok,
        ensures
            self.after_remove_liquidity(owner, params).wf(),
    {
        let pair = params.token_pair;
        let after = self.after_remove_liquidity(owner, params);
        let key = ShareKey { pair, owner };
        let held = self.balance(pair, owner);
        self.lemma_balance_within_issued(pair, owner);
        self.pool(pair).lemma_withdrawal_keeps_funded(params.shares);
        assert forall|other: TokenPair| #[trigger]
            after.pool(other).total_shares == after.issued(other) by {
            assert(self.pool(other).total_shares == self.issued(other));
            if held == params.shares {
                lemma_issued_shares_remove(self.shares, key, other);
            } else {
                lemma_issued_shares_insert(self.shares, key, (held - params.shares) as u64, other);
            }
        }
    }

    /// Whoever adds liquidity and at once redeems exactly the shares minted
    /// for it gets back no more of either token than they paid in: rounding
    /// never favours the one who withdraws.
    ///
    /// This is stated of pools that hold nothing without shares being issued
    /// against it. A pool without shares that holds tokens all the same pays
    /// them out to the first who mints shares and redeems them.
    pub proof fn lemma_add_then_remove_pays_no_more(
        self,
        owner: AccountAddress,
        added: AddLiquidityParams,
        removed: RemoveLiquidityParams,
    )
        requires
            self.wf(),
            self.add_liquidity_result(Address::Account(owner), added) is Ok,
            self.pool(added.token_pair).accepts_deposit(added.amount0, added.amount1),
            removed.token_pair == added.token_pair,
            removed.shares == self.pool(added.token_pair).minted_shares(
                added.amount0,
                added.amount1,
            ),
            !(self.pool(added.token_pair).total_shares == 0 && removed.shares > 0 && (self.pool(
                added.token_pair,
            ).token0_reserve > 0 || self.pool(added.token_pair).token1_reserve > 0)),
        ensures
            match self.after_add_liquidity(owner, added).remove_liquidity_result(
                Address::Account(owner),
                removed,
            ) {
                Ok((amount0, amount1)) => amount0 <= added.amount0 && amount1 <= added.amount1,
                Err(_) => true,
            },
    {
        let pair = added.token_pair;
        let pool = self.pool(pair);
        let after = self.after_add_liquidity(owner, added);
        let minted = removed.shares;
        self.lemma_add_liquidity_keeps_wf(owner, added);
        self.lemma_balance_within_issued(pair, owner);
        after.lemma_balance_within_issued(pair, owner);
        if after.remove_liquidity_result(Address::Account(owner), removed) is Ok {
            let grown = after.pools[pair];
            assert(grown == pool.after_deposit(added.amount0, added.amount1));
            assert(grown.total_shares > 0);
            Self::lemma_redeemed_within_deposit(
                minted as int,
                pool.token0_reserve as int,
                added.amount0 as int,
                pool.total_shares as int,
            );
            Self::lemma_redeemed_within_deposit(
                minted as int,
                pool.token1_reserve as int,
                added.amount1 as int,
                pool.total_shares as int,
            );
        }
    }

    /// The arithmetic of [`Self::lemma_add_then_remove_pays_no_more`] for one
    /// token: `minted` shares, minted for `amount` into a reserve of
    /// `reserve` with `total` shares issued, redeem no more than `amount`.
    proof fn lemma_redeemed_within_deposit(minted: int, reserve: int, amount: int, total: int)
        requires
            0 <= minted,
            0 <= reserve,
            0 <= amount,
            0 <= total,
            0 < total + minted,
            total > 0 ==> reserve > 0 && minted <= (amount * total) / reserve,
            total == 0 ==> reserve == 0,
        ensures
            (minted * (reserve + amount)) / (total + minted) <= amount,
    {
        if total > 0 {
            vstd::arithmetic::div_mod::lemma_fundamental_div_mod(amount * total, reserve);
            vstd::arithmetic::div_mod::lemma_mod_bound(amount * total, reserve);
            let q = (amount * total) / reserve;
            assert(minted * (reserve + amount) <= amount * (total + minted)) by (nonlinear_arith)
                requires
                    reserve * q <= amount * total,
                    0 <= minted <= q,
                    0 < reserve,
                    0 <= amount,
            ;
        } else {
            assert(minted * (reserve + amount) == amount * (total + minted)) by (nonlinear_arith)
                requires
                    reserve == 0,
                    total == 0,
            ;
        }
        vstd::arithmetic::div_mod::lemma_div_is_ordered(
            minted * (reserve + amount),
            amount * (total + minted),
            total + minted,
        );
        vstd::arithmetic::div_mod::lemma_div_multiples_vanish(amount, total + minted);
    }

    /// A swap keeps the books well-formed, and does not lower the product of
    /// the pool's reserves.
    pub proof fn lemma_swap_keeps_wf(self, params: SwapParams)
        requires
            self.wf(),
            self.swap_result(params) is Ok,
            self.fits_swap(params),
        ensures
            self.after_swap(params).wf(),
            self.after_swap(params).pool(params.token_pair).product() >= self.pool(
                params.token_pair,
            ).product(),
    {
        let pair = params.token_pair;
        let after = self.after_swap(params);
        self.pool(pair).lemma_swap_keeps_product_and_funded(params.amount_in, params.is_token0);
        assert forall|other: TokenPair| #[trigger]
            after.pool(other).total_shares == after.issued(other) by {
            assert(self.pool(other).total_shares == self.issued(other));
        }
    }
}

} // verus!
