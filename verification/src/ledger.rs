//! The ledger of shares: how many shares each owner holds of each pair's pool.

use crate::book::{credited, debited, held, Holdings, ShareKey};
use crate::keyed::{as_map, distinct, Key, KeyedList};
use crate::types::{AccountAddress, Error, TokenAmount, TokenPair};
use vstd::prelude::*;

verus! {

impl Key for ShareKey {
    fn same(&self, other: &Self) -> (same: bool) {
        self.pair == other.pair && self.owner.same_as(&other.owner)
    }
}

/// The holdings of shares, by pair and owner. A holding is put on record when
/// its owner is first credited, and struck off when nothing is left of it.
pub struct ShareLedger {
    holdings: KeyedList<ShareKey, TokenAmount>,
}

impl View for ShareLedger {
    type V = Holdings;

    closed spec fn view(&self) -> Holdings {
        self.holdings@
    }
}

impl ShareLedger {
    /// The holdings on record, in the order in which the ledger keeps them.
    pub closed spec fn entries(&self) -> Seq<(ShareKey, TokenAmount)> {
        self.holdings.entries()
    }

    /// The ledger stands for the map of its entries, which is finite.
    pub proof fn lemma_view(&self)
        ensures
            self@ == as_map(self.entries()),
            self@.dom().finite(),
    {
        self.holdings.lemma_view();
    }

    /// The ledger of the given holdings; none where a pair and owner occur
    /// twice.
    pub fn from_entries(entries: &Vec<(ShareKey, TokenAmount)>) -> (ledger: Option<Self>)
        ensures
            match ledger {
                Some(ledger) => ledger.entries() == entries@ && distinct(entries@),
                None => !distinct(entries@),
            },
    {
        match KeyedList::from_entries(entries) {
            Some(holdings) => Some(ShareLedger { holdings }),
            None => None,
        }
    }

    /// The holdings on record, each with its pair and owner.
    pub fn to_vec(&self) -> (entries: Vec<(ShareKey, TokenAmount)>)
        ensures
            entries@ == self.entries(),
            distinct(entries@),
    {
        self.holdings.to_vec()
    }

    /// A ledger without holdings.
    pub fn new() -> (ledger: Self)
        ensures
            ledger@ == Map::<ShareKey, TokenAmount>::empty(),
    {
        ShareLedger { holdings: KeyedList::new() }
    }

    /// The holding of `owner` in `pair`, if one is on record.
    pub fn get(&self, pair: &TokenPair, owner: &AccountAddress) -> (amount: Option<TokenAmount>)
        ensures
            amount == if self@.contains_key(ShareKey { pair: *pair, owner: *owner }) {
                Some(self@[ShareKey { pair: *pair, owner: *owner }])
            } else {
                None
            },
    {
        self.holdings.get(&ShareKey { pair: *pair, owner: *owner })
    }

    /// The shares of `pair` that `owner` holds; zero where nothing is on
    /// record.
    pub fn balance(&self, pair: &TokenPair, owner: &AccountAddress) -> (amount: TokenAmount)
        ensures
            amount == held(self@, ShareKey { pair: *pair, owner: *owner }),
    {
        match self.holdings.get(&ShareKey { pair: *pair, owner: *owner }) {
            Some(amount) => amount,
            None => 0,
        }
    }

    /// Adds `amount` to the holding of `owner` in `pair`, which is put on
    /// record if it was not. The holding must stay within 64 bits.
    pub fn credit(&mut self, pair: &TokenPair, owner: &AccountAddress, amount: TokenAmount)
        requires
            held(old(self)@, ShareKey { pair: *pair, owner: *owner }) + amount <= u64::MAX,
        ensures
            final(self)@ == credited(old(self)@, ShareKey { pair: *pair, owner: *owner }, amount),
    {
        if amount > 0 {
            let before: u64 = self.balance(pair, owner);
            self.holdings.insert(ShareKey { pair: *pair, owner: *owner }, before + amount);
        }
    }

    /// Takes `amount` from the holding of `owner` in `pair`, and strikes the
    /// holding off if nothing is left of it. Fails, and changes nothing,
    /// where no holding is on record or it is of less than `amount`.
    pub fn debit(&mut self, pair: &TokenPair, owner: &AccountAddress, amount: TokenAmount) -> (done:
        Result<(), Error>)
        ensures
            done == if old(self)@.contains_key(ShareKey { pair: *pair, owner: *owner })
                && held(old(self)@, ShareKey { pair: *pair, owner: *owner }) >= amount {
                Ok::<(), Error>(())
            } else {
                Err(Error::InsufficientShares)
            },
            final(self)@ == if done is Ok {
                debited(old(self)@, ShareKey { pair: *pair, owner: *owner }, amount)
            } else {
                old(self)@
            },
    {
        let key = ShareKey { pair: *pair, owner: *owner };
        match self.holdings.get(&key) {
            None => Err(Error::InsufficientShares),
            Some(before) => {
                if before < amount {
                    Err(Error::InsufficientShares)
                } else {
                    if before == amount {
                        self.holdings.remove(&key);
                    } else {
                        self.holdings.insert(key, before - amount);
                    }
                    Ok(())
                }
            },
        }
    }
}

} // verus!
