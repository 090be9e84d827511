//! The state as two plain lists, as it is kept in storage: the pools with
//! their pairs, and the holdings with their pairs and owners. Lists that come
//! out of storage are checked before the exchange goes on from them.

use crate::book::{
    lemma_listed_shares_are_issued, lemma_listed_shares_grow, lemma_listed_shares_none,
    listed_shares, Book, ShareKey,
};
use crate::keyed::{as_map, distinct, holds, lemma_as_map_finite, lemma_entry_is_mapped, position};
use crate::ledger::ShareLedger;
use crate::pool::LiquidityPool;
use crate::registry::PoolRegistry;
use crate::state::State;
use crate::types::{TokenAmount, TokenPair};
use vstd::prelude::*;

verus! {

/// The books that a list of pools and a list of holdings stand for.
pub open spec fn listed_book(
    pools: Seq<(TokenPair, LiquidityPool)>,
    holdings: Seq<(ShareKey, TokenAmount)>,
) -> Book {
    Book { pools: as_map(pools), shares: as_map(holdings) }
}

/// Whether an exchange can go on from the two lists: no pair occurs twice
/// among the pools, no pair and owner twice among the holdings, and the books
/// they stand for are well-formed.
pub open spec fn restorable(
    pools: Seq<(TokenPair, LiquidityPool)>,
    holdings: Seq<(ShareKey, TokenAmount)>,
) -> bool {
    &&& distinct(pools)
    &&& distinct(holdings)
    &&& listed_book(pools, holdings).wf()
}

/// What is checked of the two lists, entry by entry: no holding is of zero
/// shares; every pool that has issued shares holds some of both tokens; every
/// holding is of a pair that has a pool; and every pool's `total_shares` is
/// the sum of the holdings of its pair.
pub open spec fn entries_in_order(
    pools: Seq<(TokenPair, LiquidityPool)>,
    holdings: Seq<(ShareKey, TokenAmount)>,
) -> bool {
    &&& forall|i: int| 0 <= i < holdings.len() ==> (#[trigger] holdings[i]).1 > 0
    &&& forall|i: int| 0 <= i < pools.len() ==> (#[trigger] pools[i]).1.funded()
    &&& forall|i: int| 0 <= i < holdings.len() ==> holds(pools, (#[trigger] holdings[i]).0.pair)
    &&& forall|i: int|
        0 <= i < pools.len() ==> (#[trigger] pools[i]).1.total_shares == listed_shares(
            holdings,
            pools[i].0,
        )
}

/// Lists with distinct keys stand for well-formed books exactly where their
/// entries are in order.
pub proof fn lemma_entries_in_order(
    pools: Seq<(TokenPair, LiquidityPool)>,
    holdings: Seq<(ShareKey, TokenAmount)>,
)
    requires
        distinct(pools),
        distinct(holdings),
    ensures
        entries_in_order(pools, holdings) <==> listed_book(pools, holdings).wf(),
{
    let book = listed_book(pools, holdings);
    lemma_as_map_finite(holdings);
    if entries_in_order(pools, holdings) {
        assert forall|key: ShareKey| book.shares.contains_key(key) implies book.shares[key]
            > 0 by {
            lemma_entry_is_mapped(holdings, position(holdings, key));
        }
        assert forall|pair: TokenPair| book.pools.contains_key(pair) implies book.pools[pair].funded() by {
            lemma_entry_is_mapped(pools, position(pools, pair));
        }
        assert forall|pair: TokenPair| #[trigger]
            book.pool(pair).total_shares == book.issued(pair) by {
            lemma_listed_shares_are_issued(holdings, pair);
            if book.pools.contains_key(pair) {
                lemma_entry_is_mapped(pools, position(pools, pair));
            } else {
                lemma_listed_shares_none(holdings, pair);
            }
        }
    }
    if book.wf() {
        assert forall|i: int| 0 <= i < holdings.len() implies (#[trigger] holdings[i]).1 > 0 && holds(
            pools,
            holdings[i].0.pair,
        ) by {
            lemma_entry_is_mapped(holdings, i);
            book.lemma_balance_within_issued(holdings[i].0.pair, holdings[i].0.owner);
            assert(holdings[i].0 == ShareKey {
                pair: holdings[i].0.pair,
                owner: holdings[i].0.owner,
            });
        }
        assert forall|i: int| 0 <= i < pools.len() implies (#[trigger] pools[i]).1.funded()
            && pools[i].1.total_shares == listed_shares(holdings, pools[i].0) by {
            lemma_entry_is_mapped(pools, i);
            lemma_listed_shares_are_issued(holdings, pools[i].0);
            assert(book.pool(pools[i].0).total_shares == book.issued(pools[i].0));
        }
    }
}

/// The shares of `pair` in a list of holdings, summed; none where the sum is
/// beyond 64 bits.
pub fn listed_total(holdings: &Vec<(ShareKey, TokenAmount)>, pair: &TokenPair) -> (total: Option<
    TokenAmount,
>)
    ensures
        match total {
            Some(total) => total == listed_shares(holdings@, *pair),
            None => listed_shares(holdings@, *pair) > u64::MAX,
        },
{
    let mut sum: u64 = 0;
    let mut i: usize = 0;
    while i < holdings.len()
        invariant
            i <= holdings@.len(),
            sum == listed_shares(holdings@.subrange(0, i as int), *pair),
        decreases holdings@.len() - i,
    {
        let entry = holdings[i];
        proof {
            assert(holdings@.subrange(0, i + 1).drop_last() == holdings@.subrange(0, i as int));
            lemma_listed_shares_grow(holdings@, i + 1, *pair);
        }
        if entry.0.pair == *pair {
            if entry.1 > u64::MAX - sum {
                return None;
            }
            sum = sum + entry.1;
        }
        i += 1;
    }
    assert(holdings@.subrange(0, i as int) == holdings@);
    Some(sum)
}

/// Whether the entries of the two lists are in order; see
/// [`entries_in_order`].
fn check_entries(
    registry: &PoolRegistry,
    pools: &Vec<(TokenPair, LiquidityPool)>,
    holdings: &Vec<(ShareKey, TokenAmount)>,
) -> (ok: bool)
    requires
        registry.entries() == pools@,
    ensures
        ok == entries_in_order(pools@, holdings@),
{
    proof {
        registry.lemma_view();
    }
    let mut i: usize = 0;
    while i < holdings.len()
        invariant
            i <= holdings@.len(),
            registry@ == as_map(pools@),
            forall|j: int| 0 <= j < i ==> (#[trigger] holdings@[j]).1 > 0,
            forall|j: int| 0 <= j < i ==> holds(pools@, (#[trigger] holdings@[j]).0.pair),
        decreases holdings@.len() - i,
    {
        let entry = holdings[i];
        if entry.1 == 0 {
            return false;
        }
        if registry.get(&entry.0.pair).is_none() {
            return false;
        }
        i += 1;
    }
    let mut k: usize = 0;
    while k < pools.len()
        invariant
            k <= pools@.len(),
            forall|j: int| 0 <= j < k ==> (#[trigger] pools@[j]).1.funded(),
            forall|j: int|
                0 <= j < k ==> (#[trigger] pools@[j]).1.total_shares == listed_shares(
                    holdings@,
                    pools@[j].0,
                ),
        decreases pools@.len() - k,
    {
        let entry = pools[k];
        let pool = entry.1;
        if pool.total_shares > 0 && (pool.token0_reserve == 0 || pool.token1_reserve == 0) {
            return false;
        }
        match listed_total(holdings, &entry.0) {
            Some(total) => {
                if total != pool.total_shares {
                    return false;
                }
            },
            None => {
                return false;
            },
        }
        k += 1;
    }
    true
}

impl State {
    /// The state that the two lists stand for, if an exchange can go on from
    /// them; see [`restorable`].
    pub fn restore(
        pools: &Vec<(TokenPair, LiquidityPool)>,
        holdings: &Vec<(ShareKey, TokenAmount)>,
    ) -> (state: Option<State>)
        ensures
            match state {
                Some(state) => {
                    &&& restorable(pools@, holdings@)
                    &&& state@ == listed_book(pools@, holdings@)
                },
                None => !restorable(pools@, holdings@),
            },
    {
        let registry = match PoolRegistry::from_entries(pools) {
            Some(registry) => registry,
            None => {
                return None;
            },
        };
        let ledger = match ShareLedger::from_entries(holdings) {
            Some(ledger) => ledger,
            None => {
                return None;
            },
        };
        proof {
            registry.lemma_view();
            ledger.lemma_view();
            lemma_entries_in_order(pools@, holdings@);
        }
        if check_entries(&registry, pools, holdings) {
            Some(State::from_parts(registry, ledger))
        } else {
            None
        }
    }
}

} // verus!
