//! The state of the exchange, and the operations on it: adding liquidity,
//! removing liquidity, swapping, and the two queries.
//!
//! Every operation either is accepted and changes the state as the books say,
//! or is rejected with an error and changes nothing.

use crate::book::{lemma_issued_shares_empty, Book, ShareKey};
use crate::keyed::{as_map, distinct};
use crate::ledger::ShareLedger;
use crate::pool::LiquidityPool;
use crate::registry::PoolRegistry;
use crate::types::{
    AccountAddress, AddLiquidityParams, Address, Error, RemoveLiquidityParams, SwapParams,
    TokenAmount, TokenPair,
};
use vstd::prelude::*;

verus! {

/// The state of the exchange: the registry of pools and the ledger of shares.
/// Its books are well-formed at all times; see [`Book::wf`].
pub struct State {
    pools: PoolRegistry,
    shares: ShareLedger,
}

impl View for State {
    type V = Book;

    closed spec fn view(&self) -> Book {
        Book { pools: self.pools@, shares: self.shares@ }
    }
}

impl State {
    /// The books are well-formed; this holds of every state at all times.
    #[verifier::type_invariant]
    closed spec fn books_wf(&self) -> bool {
        self@.wf()
    }

    /// The state of an exchange on which nothing has happened yet: no pools,
    /// no shares.
    pub fn new() -> (state: State)
        ensures
            state@ == Book::empty(),
            state@.wf(),
    {
        let pools = PoolRegistry::new();
        let shares = ShareLedger::new();
        proof {
            let book = Book { pools: pools@, shares: shares@ };
            assert forall|pair: TokenPair| #[trigger]
                book.pool(pair).total_shares == book.issued(pair) by {
                lemma_issued_shares_empty(pair);
            }
        }
        State { pools, shares }
    }

    /// The state made of a registry and a ledger whose books are well-formed.
    pub(crate) fn from_parts(pools: PoolRegistry, shares: ShareLedger) -> (state: State)
        requires
            (Book { pools: pools@, shares: shares@ }).wf(),
        ensures
            state@ == (Book { pools: pools@, shares: shares@ }),
    {
        State { pools, shares }
    }

    /// Does nothing, and tells the caller what holds of every state: its
    /// books are well-formed.
    pub fn well_formed(&self)
        ensures
            self@.wf(),
    {
        proof {
            use_type_invariant(self);
        }
    }

    /// The pools on record, each with its pair. No pair occurs twice, and the
    /// list stands for the pools of the books.
    pub fn pools(&self) -> (entries: Vec<(TokenPair, LiquidityPool)>)
        ensures
            distinct(entries@),
            as_map(entries@) == self@.pools,
    {
        proof {
            self.pools.lemma_view();
        }
        self.pools.to_vec()
    }

    /// The holdings on record, each with its pair and owner. No pair and
    /// owner occur twice, and the list stands for the holdings of the books.
    pub fn holdings(&self) -> (entries: Vec<(ShareKey, TokenAmount)>)
        ensures
            distinct(entries@),
            as_map(entries@) == self@.shares,
    {
        proof {
            self.shares.lemma_view();
        }
        self.shares.to_vec()
    }

    /// The pool of `pair`, if it has one.
    pub fn get_pool(&self, pair: &TokenPair) -> (pool: Option<LiquidityPool>)
        ensures
            pool == if self@.pools.contains_key(*pair) {
                Some(self@.pools[*pair])
            } else {
                None
            },
    {
        self.pools.get(pair)
    }

    /// The shares of `pair` that `owner` holds; zero where nothing is on
    /// record. Never an error.
    pub fn get_shares(&self, pair: &TokenPair, owner: &AccountAddress) -> (amount: TokenAmount)
        ensures
            amount == self@.balance(*pair, *owner),
    {
        self.shares.balance(pair, owner)
    }

    /// The pool of `pair`, or an empty pool where it has none.
    fn pool_or_empty(&self, pair: &TokenPair) -> (pool: LiquidityPool)
        ensures
            pool == self@.pool(*pair),
            pool.funded(),
    {
        proof {
            use_type_invariant(self);
        }
        match self.pools.get(pair) {
            Some(pool) => pool,
            None => LiquidityPool::empty(),
        }
    }

    /// Whether a call to add liquidity is within the machine's range; see
    /// [`Book::fits_add_liquidity`].
    pub fn fits_add_liquidity(&self, sender: &Address, params: &AddLiquidityParams) -> (fits: bool)
        ensures
            fits == self@.fits_add_liquidity(*sender, *params),
    {
        let pool = self.pool_or_empty(&params.token_pair);
        let minted: u128 = pool.quote_deposit(params.amount0, params.amount1);
        if minted < params.min_liquidity as u128 {
            return true;
        }
        match sender {
            Address::Contract(_) => true,
            Address::Account(_) => {
                params.amount0 <= u64::MAX - pool.token0_reserve && params.amount1 <= u64::MAX
                    - pool.token1_reserve && minted <= (u64::MAX - pool.total_shares) as u128
            },
        }
    }

    /// Adds liquidity for `sender`: the pair's pool, made if there was none,
    /// takes `amount0` and `amount1` and mints shares for them, which are
    /// credited to `sender`.
    ///
    /// Rejected with `InsufficientLiquidity` where fewer than `min_liquidity`
    /// shares would be minted, and with `ParseParams` where `sender` is not
    /// an account.
    pub fn add_liquidity(&mut self, sender: &Address, params: &AddLiquidityParams) -> (done: Result<
        (),
        Error,
    >)
        requires
            old(self)@.fits_add_liquidity(*sender, *params),
        ensures
            done == old(self)@.add_liquidity_result(*sender, *params),
            final(self)@ == old(self)@.add_liquidity(*sender, *params),
            final(self)@.wf(),
    {
        proof {
            use_type_invariant(&*self);
        }
        let pair = params.token_pair;
        let quoted = self.pool_or_empty(&pair);
        let minted: u128 = quoted.quote_deposit(params.amount0, params.amount1);
        if minted < params.min_liquidity as u128 {
            return Err(Error::InsufficientLiquidity);
        }
        let owner = match sender {
            Address::Account(owner) => *owner,
            Address::Contract(_) => {
                return Err(Error::ParseParams);
            },
        };
        proof {
            self@.lemma_balance_within_issued(pair, owner);
            self@.lemma_add_liquidity_keeps_wf(owner, *params);
        }
        let mut taken = State::new();
        core::mem::swap(self, &mut taken);
        let State { mut pools, mut shares } = taken;
        let mut pool = pools.get_or_create(&pair);
        let shares_minted: u64 = pool.deposit(params.amount0, params.amount1);
        pools.put(&pair, pool);
        shares.credit(&pair, &owner, shares_minted);
        proof {
            assert(pools@ =~= old(self)@.after_add_liquidity(owner, *params).pools);
        }
        *self = State { pools, shares };
        Ok(())
    }

    /// What a call to remove liquidity would end in, without making it.
    pub fn quote_remove_liquidity(&self, sender: &Address, params: &RemoveLiquidityParams) -> (quote:
        Result<(TokenAmount, TokenAmount), Error>)
        ensures
            quote == self@.remove_liquidity_result(*sender, *params),
    {
        proof {
            use_type_invariant(self);
        }
        let pair = params.token_pair;
        let owner = match sender {
            Address::Account(owner) => *owner,
            Address::Contract(_) => {
                return Err(Error::ParseParams);
            },
        };
        let pool = match self.pools.get(&pair) {
            Some(pool) => pool,
            None => {
                return Err(Error::PoolNotFound);
            },
        };
        let held: u64 = match self.shares.get(&pair, &owner) {
            Some(held) => held,
            None => {
                return Err(Error::InsufficientShares);
            },
        };
        if held < params.shares {
            return Err(Error::InsufficientShares);
        }
        proof {
            self@.lemma_balance_within_issued(pair, owner);
        }
        let amounts = pool.quote_withdrawal(params.shares);
        if amounts.0 < params.min_amount0 || amounts.1 < params.min_amount1 {
            return Err(Error::InsufficientAmount);
        }
        Ok(amounts)
    }

    /// Removes liquidity for `sender`: redeems `shares` of the pair's pool
    /// out of the sender's holding. Returns what is to be paid out of each
    /// token: the shares' part of each reserve, rounded down.
    ///
    /// Rejected, in this order: with `ParseParams` where `sender` is not an
    /// account; with `PoolNotFound` where the pair has no pool; with
    /// `InsufficientShares` where the sender has no holding of the pair or
    /// one of fewer than `shares`; with `InsufficientAmount` where either
    /// amount paid out would be below its minimum.
    pub fn remove_liquidity(&mut self, sender: &Address, params: &RemoveLiquidityParams) -> (done:
        Result<(TokenAmount, TokenAmount), Error>)
        ensures
            done == old(self)@.remove_liquidity_result(*sender, *params),
            final(self)@ == old(self)@.remove_liquidity(*sender, *params),
            final(self)@.wf(),
    {
        proof {
            use_type_invariant(&*self);
        }
        let pair = params.token_pair;
        let owner = match sender {
            Address::Account(owner) => *owner,
            Address::Contract(_) => {
                return Err(Error::ParseParams);
            },
        };
        match self.quote_remove_liquidity(sender, params) {
            Err(error) => Err(error),
            Ok(_) => {
                proof {
                    self@.lemma_balance_within_issued(pair, owner);
                    self@.lemma_remove_liquidity_keeps_wf(owner, *params);
                }
                let mut taken = State::new();
                core::mem::swap(self, &mut taken);
                let State { mut pools, mut shares } = taken;
                let mut pool = pools.get_or_create(&pair);
                let amounts = pool.withdraw(params.shares);
                pools.put(&pair, pool);
                let debit = shares.debit(&pair, &owner, params.shares);
                proof {
                    assert(debit is Ok);
                    assert(pools@ =~= old(self)@.after_remove_liquidity(owner, *params).pools);
                }
                *self = State { pools, shares };
                Ok(amounts)
            },
        }
    }

    /// Whether a call to swap is within the machine's range; see
    /// [`Book::fits_swap`].
    pub fn fits_swap(&self, params: &SwapParams) -> (fits: bool)
        ensures
            fits == self@.fits_swap(*params),
    {
        match self.pools.get(&params.token_pair) {
            None => true,
            Some(pool) => {
                let reserve_in: u64 = if params.is_token0 {
                    pool.token0_reserve
                } else {
                    pool.token1_reserve
                };
                if reserve_in == 0 && params.amount_in == 0 {
                    return false;
                }
                let out: u64 = pool.quote_swap(params.amount_in, params.is_token0);
                out < params.min_amount_out || params.amount_in <= u64::MAX - reserve_in
            },
        }
    }

    /// What a call to swap would end in, without making it.
    pub fn quote_swap(&self, params: &SwapParams) -> (quote: Result<TokenAmount, Error>)
        requires
            self@.fits_swap(*params),
        ensures
            quote == self@.swap_result(*params),
    {
        match self.pools.get(&params.token_pair) {
            None => Err(Error::PoolNotFound),
            Some(pool) => {
                let out: u64 = pool.quote_swap(params.amount_in, params.is_token0);
                if out < params.min_amount_out {
                    Err(Error::InsufficientAmount)
                } else {
                    Ok(out)
                }
            },
        }
    }

    /// Swaps: the pair's pool takes `amount_in` of one token and pays out of
    /// the other, at the constant-product price less the fee. Returns the
    /// amount paid out. The product of the pool's reserves does not fall.
    ///
    /// Rejected with `PoolNotFound` where the pair has no pool, and with
    /// `InsufficientAmount` where less than `min_amount_out` would be paid
    /// out.
    pub fn swap(&mut self, params: &SwapParams) -> (done: Result<TokenAmount, Error>)
        requires
            old(self)@.fits_swap(*params),
        ensures
            done == old(self)@.swap_result(*params),
            final(self)@ == old(self)@.swap(*params),
            final(self)@.wf(),
            final(self)@.pool(params.token_pair).product() >= old(self)@.pool(
                params.token_pair,
            ).product(),
    {
        proof {
            use_type_invariant(&*self);
        }
        let pair = params.token_pair;
        match self.quote_swap(params) {
            Err(error) => Err(error),
            Ok(_) => {
                proof {
                    self@.lemma_swap_keeps_wf(*params);
                }
                let mut taken = State::new();
                core::mem::swap(self, &mut taken);
                let State { mut pools, shares } = taken;
                let mut pool = pools.get_or_create(&pair);
                let out: u64 = pool.swap(params.amount_in, params.is_token0);
                pools.put(&pair, pool);
                *self = State { pools, shares };
                Ok(out)
            },
        }
    }
}

} // verus!
