//! A map kept as a list of entries with distinct keys, found by walking the
//! list. The registry of pools and the ledger of shares are both built on it.

use vstd::prelude::*;

verus! {

/// A key of a [`KeyedList`]: a plain value that can be told from another.
pub trait Key: Copy {
    /// Whether two keys are the same value.
    fn same(&self, other: &Self) -> (same: bool)
        ensures
            same == (*self == *other),
    ;
}

/// Whether some entry has the key.
pub open spec fn holds<K, V>(entries: Seq<(K, V)>, key: K) -> bool {
    exists|i: int| 0 <= i < entries.len() && (#[trigger] entries[i]).0 == key
}

/// The place of an entry with the key, where there is one.
pub open spec fn position<K, V>(entries: Seq<(K, V)>, key: K) -> int {
    choose|i: int| 0 <= i < entries.len() && (#[trigger] entries[i]).0 == key
}

/// No two entries have the same key.
pub open spec fn distinct<K, V>(entries: Seq<(K, V)>) -> bool {
    forall|i: int, j: int|
        0 <= i < j < entries.len() ==> (#[trigger] entries[i]).0 != (#[trigger] entries[j]).0
}

/// The map that a list of entries stands for.
pub open spec fn as_map<K, V>(entries: Seq<(K, V)>) -> Map<K, V> {
    Map::new(|key: K| holds(entries, key), |key: K| entries[position(entries, key)].1)
}

/// In a list with distinct keys, an entry is the one found under its key.
pub proof fn lemma_entry_is_mapped<K, V>(entries: Seq<(K, V)>, i: int)
    requires
        distinct(entries),
        0 <= i < entries.len(),
    ensures
        holds(entries, entries[i].0),
        position(entries, entries[i].0) == i,
        as_map(entries).contains_key(entries[i].0),
        as_map(entries)[entries[i].0] == entries[i].1,
{
    let j = position(entries, entries[i].0);
    assert(0 <= j < entries.len() && entries[j].0 == entries[i].0);
}

/// A list of entries stands for a finite map.
pub proof fn lemma_as_map_finite<K, V>(entries: Seq<(K, V)>)
    ensures
        as_map(entries).dom().finite(),
    decreases entries.len(),
{
    if entries.len() == 0 {
        assert(as_map(entries).dom() =~= Set::<K>::empty());
    } else {
        let rest = entries.drop_last();
        let last = entries.last();
        lemma_as_map_finite(rest);
        assert forall|key: K| holds(entries, key) <==> (holds(rest, key) || key == last.0) by {
            if holds(entries, key) {
                let i = position(entries, key);
                if i < rest.len() {
                    assert(rest[i].0 == key);
                }
            }
            if holds(rest, key) {
                let i = position(rest, key);
                assert(entries[i].0 == key);
            }
            if key == last.0 {
                assert(entries[entries.len() - 1].0 == key);
            }
        }
        assert(as_map(entries).dom() =~= as_map(rest).dom().insert(last.0));
    }
}

/// Putting a new key at the end of the list inserts it into the map.
pub proof fn lemma_push_inserts<K, V>(entries: Seq<(K, V)>, key: K, value: V)
    requires
        distinct(entries),
        !holds(entries, key),
    ensures
        distinct(entries.push((key, value))),
        as_map(entries.push((key, value))) == as_map(entries).insert(key, value),
{
    let after = entries.push((key, value));
    assert forall|i: int, j: int| 0 <= i < j < after.len() implies (#[trigger] after[i]).0 != (
    #[trigger] after[j]).0 by {
        assert(after[i] == entries[i]);
        if j < entries.len() {
            assert(after[j] == entries[j]);
        }
    }
    assert forall|k: K| #[trigger]
        as_map(after).contains_key(k) == as_map(entries).insert(key, value).contains_key(k) by {
        if holds(after, k) {
            let i = position(after, k);
            if i < entries.len() {
                assert(entries[i].0 == k);
            }
        }
        if holds(entries, k) {
            let i = position(entries, k);
            assert(after[i].0 == k);
        }
        if k == key {
            assert(after[entries.len() as int].0 == k);
        }
    }
    assert forall|k: K| as_map(after).contains_key(k) implies #[trigger] as_map(after)[k]
        == as_map(entries).insert(key, value)[k] by {
        let i = position(after, k);
        lemma_entry_is_mapped(after, i);
        if i < entries.len() {
            assert(entries[i] == after[i]);
            lemma_entry_is_mapped(entries, i);
        }
    }
    assert(as_map(after) =~= as_map(entries).insert(key, value));
}

/// Writing a value over the entry at `i` sets its key's value in the map.
pub proof fn lemma_update_inserts<K, V>(entries: Seq<(K, V)>, i: int, value: V)
    requires
        distinct(entries),
        0 <= i < entries.len(),
    ensures
        distinct(entries.update(i, (entries[i].0, value))),
        as_map(entries.update(i, (entries[i].0, value))) == as_map(entries).insert(
            entries[i].0,
            value,
        ),
{
    let key = entries[i].0;
    let after = entries.update(i, (key, value));
    assert forall|a: int, b: int| 0 <= a < b < after.len() implies (#[trigger] after[a]).0 != (
    #[trigger] after[b]).0 by {
        assert(after[a].0 == entries[a].0);
        assert(after[b].0 == entries[b].0);
    }
    assert forall|k: K| #[trigger]
        as_map(after).contains_key(k) == as_map(entries).insert(key, value).contains_key(k) by {
        if holds(after, k) {
            let j = position(after, k);
            assert(entries[j].0 == k);
        }
        if holds(entries, k) {
            let j = position(entries, k);
            assert(after[j].0 == k);
        }
        if k == key {
            assert(after[i].0 == k);
        }
    }
    assert forall|k: K| as_map(after).contains_key(k) implies #[trigger] as_map(after)[k]
        == as_map(entries).insert(key, value)[k] by {
        let j = position(after, k);
        lemma_entry_is_mapped(after, j);
        assert(entries[j].0 == k);
        lemma_entry_is_mapped(entries, j);
    }
    assert(as_map(after) =~= as_map(entries).insert(key, value));
}

/// Taking the entry at `i` out of the list removes its key from the map.
pub proof fn lemma_remove_removes<K, V>(entries: Seq<(K, V)>, i: int)
    requires
        distinct(entries),
        0 <= i < entries.len(),
    ensures
        distinct(entries.remove(i)),
        as_map(entries.remove(i)) == as_map(entries).remove(entries[i].0),
{
    let key = entries[i].0;
    let after = entries.remove(i);
    let origin = |j: int| if j < i { j } else { j + 1 };
    assert forall|j: int| 0 <= j < after.len() implies #[trigger] after[j] == entries[origin(j)] by {}
    assert forall|a: int, b: int| 0 <= a < b < after.len() implies (#[trigger] after[a]).0 != (
    #[trigger] after[b]).0 by {
        assert(after[a] == entries[origin(a)]);
        assert(after[b] == entries[origin(b)]);
    }
    assert forall|k: K| #[trigger]
        as_map(after).contains_key(k) == as_map(entries).remove(key).contains_key(k) by {
        if holds(after, k) {
            let j = position(after, k);
            assert(after[j] == entries[origin(j)]);
            assert(entries[origin(j)].0 == k);
            assert(origin(j) != i);
        }
        if holds(entries, k) && k != key {
            let j = position(entries, k);
            let back = if j < i { j } else { j - 1 };
            assert(after[back] == entries[origin(back)]);
            assert(after[back].0 == k);
        }
    }
    assert forall|k: K| as_map(after).contains_key(k) implies #[trigger] as_map(after)[k]
        == as_map(entries).remove(key)[k] by {
        let j = position(after, k);
        lemma_entry_is_mapped(after, j);
        assert(after[j] == entries[origin(j)]);
        lemma_entry_is_mapped(entries, origin(j));
    }
    assert(as_map(after) =~= as_map(entries).remove(key));
}

/// Where in `entries` the entry with `key` stands, if there is one.
fn find_in<K: Key, V: Copy>(entries: &Vec<(K, V)>, key: &K) -> (found: Option<usize>)
    ensures
        match found {
            Some(i) => i < entries@.len() && entries@[i as int].0 == *key,
            None => !holds(entries@, *key),
        },
{
    let mut i: usize = 0;
    while i < entries.len()
        invariant
            i <= entries@.len(),
            forall|j: int| 0 <= j < i ==> (#[trigger] entries@[j]).0 != *key,
        decreases entries@.len() - i,
    {
        if entries[i].0.same(key) {
            return Some(i);
        }
        i += 1;
    }
    None
}

/// A map from keys to values, kept as a list of entries with distinct keys.
pub struct KeyedList<K, V> {
    entries: Vec<(K, V)>,
}

impl<K, V> KeyedList<K, V> {
    /// No key occurs twice; this holds of every list at all times.
    #[verifier::type_invariant]
    closed spec fn distinct_keys(&self) -> bool {
        distinct(self.entries@)
    }
}

impl<K: Key, V: Copy> View for KeyedList<K, V> {
    type V = Map<K, V>;

    closed spec fn view(&self) -> Map<K, V> {
        as_map(self.entries@)
    }
}

impl<K: Key, V: Copy> KeyedList<K, V> {
    /// The entries, in the order in which the list keeps them.
    pub closed spec fn entries(&self) -> Seq<(K, V)> {
        self.entries@
    }

    /// The list stands for the map of its entries, which is finite.
    pub proof fn lemma_view(&self)
        ensures
            self@.dom().finite(),
            self@ == as_map(self.entries()),
    {
        lemma_as_map_finite(self.entries@);
    }

    /// The empty map.
    pub fn new() -> (list: Self)
        ensures
            list@ == Map::<K, V>::empty(),
            list.entries() == Seq::<(K, V)>::empty(),
    {
        let list = KeyedList { entries: Vec::new() };
        assert(list@ =~= Map::<K, V>::empty());
        list
    }

    /// The list of the given entries, in their order; none where a key
    /// occurs twice among them.
    pub fn from_entries(entries: &Vec<(K, V)>) -> (list: Option<Self>)
        ensures
            match list {
                Some(list) => list.entries() == entries@ && distinct(entries@),
                None => !distinct(entries@),
            },
    {
        let mut kept: Vec<(K, V)> = Vec::new();
        let mut i: usize = 0;
        while i < entries.len()
            invariant
                i <= entries@.len(),
                kept@ == entries@.subrange(0, i as int),
                distinct(kept@),
            decreases entries@.len() - i,
        {
            let entry = entries[i];
            match find_in(&kept, &entry.0) {
                Some(j) => {
                    proof {
                        assert(kept@[j as int] == entries@[j as int]);
                        assert(entries@[j as int].0 == entries@[i as int].0);
                    }
                    return None;
                },
                None => {
                    proof {
                        lemma_push_inserts(kept@, entry.0, entry.1);
                        assert(entries@.subrange(0, i as int).push(entry) == entries@.subrange(
                            0,
                            i + 1,
                        ));
                    }
                    kept.push(entry);
                },
            }
            i += 1;
        }
        assert(entries@.subrange(0, i as int) == entries@);
        Some(KeyedList { entries: kept })
    }

    /// The entries, in the order in which the list keeps them.
    pub fn to_vec(&self) -> (entries: Vec<(K, V)>)
        ensures
            entries@ == self.entries(),
            distinct(entries@),
    {
        proof {
            use_type_invariant(self);
        }
        let mut entries: Vec<(K, V)> = Vec::new();
        let mut i: usize = 0;
        while i < self.entries.len()
            invariant
                i <= self.entries@.len(),
                entries@ == self.entries@.subrange(0, i as int),
            decreases self.entries@.len() - i,
        {
            let entry = self.entries[i];
            proof {
                assert(self.entries@.subrange(0, i as int).push(entry) == self.entries@.subrange(
                    0,
                    i + 1,
                ));
            }
            entries.push(entry);
            i += 1;
        }
        assert(self.entries@.subrange(0, i as int) == self.entries@);
        entries
    }


    /// The value under `key`, if there is one.
    pub fn get(&self, key: &K) -> (value: Option<V>)
        ensures
            value == if self@.contains_key(*key) {
                Some(self@[*key])
            } else {
                None
            },
    {
        proof {
            use_type_invariant(self);
        }
        match find_in(&self.entries, key) {
            Some(i) => {
                proof {
                    lemma_entry_is_mapped(self.entries@, i as int);
                }
                Some(self.entries[i].1)
            },
            None => None,
        }
    }

    /// Puts `value` under `key`, in place of what was there.
    pub fn insert(&mut self, key: K, value: V)
        ensures
            final(self)@ == old(self)@.insert(key, value),
    {
        proof {
            use_type_invariant(&*self);
        }
        let mut entries: Vec<(K, V)> = Vec::new();
        core::mem::swap(&mut entries, &mut self.entries);
        match find_in(&entries, &key) {
            Some(i) => {
                proof {
                    lemma_update_inserts(entries@, i as int, value);
                }
                entries.set(i, (key, value));
            },
            None => {
                proof {
                    lemma_push_inserts(entries@, key, value);
                }
                entries.push((key, value));
            },
        }
        self.entries = entries;
    }

    /// Takes `key` and its value out, if it is there.
    pub fn remove(&mut self, key: &K)
        ensures
            final(self)@ == old(self)@.remove(*key),
    {
        proof {
            use_type_invariant(&*self);
        }
        let mut entries: Vec<(K, V)> = Vec::new();
        core::mem::swap(&mut entries, &mut self.entries);
        match find_in(&entries, key) {
            Some(i) => {
                proof {
                    lemma_remove_removes(entries@, i as int);
                }
                entries.remove(i);
            },
            None => {
                assert(as_map(entries@).remove(*key) =~= as_map(entries@));
            },
        }
        self.entries = entries;
    }
}

} // verus!
