//! The registry of pools: for each token pair that has one, its pool.

use crate::keyed::{as_map, distinct, Key, KeyedList};
use crate::pool::LiquidityPool;
use crate::types::TokenPair;
use vstd::prelude::*;

verus! {

impl Key for TokenPair {
    fn same(&self, other: &Self) -> (same: bool) {
        *self == *other
    }
}

/// The pools, by token pair. A pool is made when its pair first takes
/// liquidity, and is kept from then on, also when it has run empty.
pub struct PoolRegistry {
    pools: KeyedList<TokenPair, LiquidityPool>,
}

impl View for PoolRegistry {
    type V = Map<TokenPair, LiquidityPool>;

    closed spec fn view(&self) -> Map<TokenPair, LiquidityPool> {
        self.pools@
    }
}

impl PoolRegistry {
    /// The pools on record, in the order in which the registry keeps them.
    pub closed spec fn entries(&self) -> Seq<(TokenPair, LiquidityPool)> {
        self.pools.entries()
    }

    /// The registry stands for the map of its entries.
    pub proof fn lemma_view(&self)
        ensures
            self@ == as_map(self.entries()),
    {
        self.pools.lemma_view();
    }

    /// The registry of the given pools; none where a pair occurs twice.
    pub fn from_entries(entries: &Vec<(TokenPair, LiquidityPool)>) -> (registry: Option<Self>)
        ensures
            match registry {
                Some(registry) => registry.entries() == entries@ && distinct(entries@),
                None => !distinct(entries@),
            },
    {
        match KeyedList::from_entries(entries) {
            Some(pools) => Some(PoolRegistry { pools }),
            None => None,
        }
    }

    /// The pools on record, each with its pair.
    pub fn to_vec(&self) -> (entries: Vec<(TokenPair, LiquidityPool)>)
        ensures
            entries@ == self.entries(),
            distinct(entries@),
    {
        self.pools.to_vec()
    }

    /// A registry without pools.
    pub fn new() -> (registry: Self)
        ensures
            registry@ == Map::<TokenPair, LiquidityPool>::empty(),
    {
        PoolRegistry { pools: KeyedList::new() }
    }

    /// The pool of `pair`, if it has one.
    pub fn get(&self, pair: &TokenPair) -> (pool: Option<LiquidityPool>)
        ensures
            pool == if self@.contains_key(*pair) {
                Some(self@[*pair])
            } else {
                None
            },
    {
        self.pools.get(pair)
    }

    /// The pool of `pair`; where it has none, an empty pool is put on record
    /// for it first.
    pub fn get_or_create(&mut self, pair: &TokenPair) -> (pool: LiquidityPool)
        ensures
            final(self)@ == if old(self)@.contains_key(*pair) {
                old(self)@
            } else {
                old(self)@.insert(*pair, LiquidityPool::spec_empty())
            },
            pool == final(self)@[*pair],
    {
        match self.pools.get(pair) {
            Some(pool) => pool,
            None => {
                let pool = LiquidityPool::empty();
                self.pools.insert(*pair, pool);
                pool
            },
        }
    }

    /// Puts `pool` on record as the pool of `pair`.
    pub fn put(&mut self, pair: &TokenPair, pool: LiquidityPool)
        ensures
            final(self)@ == old(self)@.insert(*pair, pool),
    {
        self.pools.insert(*pair, pool);
    }
}

} // verus!
