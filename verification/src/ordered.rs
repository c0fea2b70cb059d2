//! A map kept as a vector of entries in ascending key order.
use vstd::prelude::*;

verus! {

/// A key that is ordered, and told apart, by a mathematical integer.
pub trait OrdKey: Copy {
    /// The integer that stands for the key.
    spec fn ord(self) -> int;

    /// Two keys with the same integer are the same key.
    proof fn ord_injective(self, other: Self)
        requires
            self.ord() == other.ord(),
        ensures
            self == other,
    ;

    /// Returns `true` if this key comes before `other`.
    fn precedes(&self, other: &Self) -> (r: bool)
        ensures
            r == (self.ord() < other.ord()),
    ;
}

impl OrdKey for u64 {
    open spec fn ord(self) -> int {
        self as int
    }

    proof fn ord_injective(self, other: Self) {
    }

    fn precedes(&self, other: &Self) -> (r: bool) {
        *self < *other
    }
}

/// The entries are in strictly ascending key order.
pub open spec fn ascending<K: OrdKey, V>(entries: Seq<(K, V)>) -> bool {
    forall|i: int, j: int|
        #![trigger entries[i], entries[j]]
        0 <= i < j < entries.len() ==> entries[i].0.ord() < entries[j].0.ord()
}

/// Entry `i` of the sequence holds `key`.
pub open spec fn holds_at<K, V>(entries: Seq<(K, V)>, key: K, i: int) -> bool {
    0 <= i < entries.len() && entries[i].0 == key
}

/// The map that an entry sequence stands for.
pub open spec fn entry_map<K, V>(entries: Seq<(K, V)>) -> Map<K, V> {
    Map::new(
        |k: K| exists|i: int| holds_at(entries, k, i),
        |k: K| entries[choose|i: int| holds_at(entries, k, i)].1,
    )
}

/// A map from keys to values, iterated in ascending key order.
#[derive(Debug)]
pub struct SortedMap<K, V> {
    /// The entries, in ascending key order.
    pub entries: Vec<(K, V)>,
}

impl<K: OrdKey, V> View for SortedMap<K, V> {
    type V = Map<K, V>;

    open spec fn view(&self) -> Map<K, V> {
        entry_map(self.entries@)
    }
}

/// Every entry of an ascending sequence is in its map.
pub proof fn lemma_entry_in_map<K: OrdKey, V>(entries: Seq<(K, V)>, i: int)
    requires
        ascending(entries),
        0 <= i < entries.len(),
    ensures
        entry_map(entries).contains_key(entries[i].0),
        entry_map(entries)[entries[i].0] == entries[i].1,
{
    let k = entries[i].0;
    assert(holds_at(entries, k, i));
    let j = choose|j: int| holds_at(entries, k, j);
    assert(holds_at(entries, k, j));
    if i < j {
        assert(entries[i].0.ord() < entries[j].0.ord());
    }
    if j < i {
        assert(entries[j].0.ord() < entries[i].0.ord());
    }
}

/// Every key of the map is held by an entry.
pub proof fn lemma_key_has_entry<K: OrdKey, V>(entries: Seq<(K, V)>, key: K) -> (i: int)
    requires
        ascending(entries),
        entry_map(entries).contains_key(key),
    ensures
        0 <= i < entries.len(),
        entries[i].0 == key,
        entries[i].1 == entry_map(entries)[key],
{
    let i = choose|i: int| holds_at(entries, key, i);
    assert(holds_at(entries, key, i));
    i
}

/// The map of an ascending sequence has one key for each entry.
pub proof fn lemma_entry_map_len<K: OrdKey, V>(entries: Seq<(K, V)>)
    requires
        ascending(entries),
    ensures
        entry_map(entries).dom().finite(),
        entry_map(entries).dom().len() == entries.len(),
    decreases entries.len(),
{
    if entries.len() == 0 {
        assert(entry_map(entries).dom() =~= Set::empty());
    } else {
        let front = entries.drop_last();
        lemma_entry_map_len(front);
        let k = entries.last().0;
        assert(!entry_map(front).contains_key(k)) by {
            if entry_map(front).contains_key(k) {
                let i = lemma_key_has_entry(front, k);
                assert(entries[i].0.ord() < entries[entries.len() - 1].0.ord());
            }
        }
        assert(entry_map(entries).dom() =~= entry_map(front).dom().insert(k)) by {
            assert forall|x: K| #[trigger]
                entry_map(entries).dom().contains(x) <==> entry_map(front).dom().insert(
                    k,
                ).contains(x) by {
                if entry_map(entries).dom().contains(x) {
                    let i = lemma_key_has_entry(entries, x);
                    if i < entries.len() - 1 {
                        assert(holds_at(front, x, i));
                    }
                }
                if entry_map(front).dom().contains(x) {
                    let i = lemma_key_has_entry(front, x);
                    assert(holds_at(entries, x, i));
                }
                assert(holds_at(entries, k, entries.len() - 1));
            }
        }
    }
}

/// Inserting an entry between smaller and larger keys inserts it into the map.
proof fn lemma_insert_at<K: OrdKey, V>(entries: Seq<(K, V)>, i: int, key: K, value: V)
    requires
        ascending(entries),
        0 <= i <= entries.len(),
        forall|j: int| 0 <= j < i ==> (#[trigger] entries[j]).0.ord() < key.ord(),
        forall|j: int| i <= j < entries.len() ==> key.ord() < (#[trigger] entries[j]).0.ord(),
    ensures
        ascending(entries.insert(i, (key, value))),
        !entry_map(entries).contains_key(key),
        entry_map(entries.insert(i, (key, value))) == entry_map(entries).insert(key, value),
{
    let after = entries.insert(i, (key, value));
    assert forall|a: int, b: int|
        #![trigger after[a], after[b]]
        0 <= a < b < after.len() implies after[a].0.ord() < after[b].0.ord() by {
        let pa = if a < i { a } else { a - 1 };
        let pb = if b < i { b } else { b - 1 };
        if a != i {
            assert(after[a] == entries[pa]);
        }
        if b != i {
            assert(after[b] == entries[pb]);
        }
    }
    if entry_map(entries).contains_key(key) {
        let j = lemma_key_has_entry(entries, key);
        assert(entries[j].0.ord() == key.ord());
    }
    assert(entry_map(after) =~= entry_map(entries).insert(key, value)) by {
        assert(after[i] == (key, value));
        lemma_entry_in_map(after, i);
        assert forall|k: K|
            entry_map(after).contains_key(k) <==> #[trigger] entry_map(entries).insert(
                key,
                value,
            ).contains_key(k) by {
            if entry_map(after).contains_key(k) && k != key {
                let j = lemma_key_has_entry(after, k);
                let p = if j < i { j } else { j - 1 };
                assert(entries[p] == after[j]);
                lemma_entry_in_map(entries, p);
            }
            if entry_map(entries).contains_key(k) {
                let j = lemma_key_has_entry(entries, k);
                let p = if j < i { j } else { j + 1 };
                assert(after[p] == entries[j]);
                lemma_entry_in_map(after, p);
            }
        }
        assert forall|k: K| entry_map(after).contains_key(k) implies #[trigger] entry_map(after)[k]
            == entry_map(entries).insert(key, value)[k] by {
            let j = lemma_key_has_entry(after, k);
            if k != key {
                let p = if j < i { j } else { j - 1 };
                assert(entries[p] == after[j]);
                lemma_entry_in_map(entries, p);
            }
        }
    }
}

/// Overwriting the value at an entry overwrites it in the map.
pub proof fn lemma_update_at<K: OrdKey, V>(entries: Seq<(K, V)>, i: int, value: V)
    requires
        ascending(entries),
        0 <= i < entries.len(),
    ensures
        ascending(entries.update(i, (entries[i].0, value))),
        entry_map(entries.update(i, (entries[i].0, value))) == entry_map(entries).insert(
            entries[i].0,
            value,
        ),
{
    let key = entries[i].0;
    let after = entries.update(i, (key, value));
    assert forall|a: int, b: int|
        #![trigger after[a], after[b]]
        0 <= a < b < after.len() implies after[a].0.ord() < after[b].0.ord() by {
        assert(entries[a].0.ord() < entries[b].0.ord());
    }
    assert(entry_map(after) =~= entry_map(entries).insert(key, value)) by {
        lemma_entry_in_map(entries, i);
        lemma_entry_in_map(after, i);
        assert forall|k: K|
            entry_map(after).contains_key(k) <==> #[trigger] entry_map(entries).insert(
                key,
                value,
            ).contains_key(k) by {
            if entry_map(after).contains_key(k) {
                let j = lemma_key_has_entry(after, k);
                assert(entries[j].0 == k);
                lemma_entry_in_map(entries, j);
            }
            if entry_map(entries).contains_key(k) {
                let j = lemma_key_has_entry(entries, k);
                assert(after[j].0 == k);
                lemma_entry_in_map(after, j);
            }
        }
        assert forall|k: K| entry_map(after).contains_key(k) implies #[trigger] entry_map(after)[k]
            == entry_map(entries).insert(key, value)[k] by {
            let j = lemma_key_has_entry(after, k);
            lemma_entry_in_map(entries, j);
            if j != i {
                assert(after[j] == entries[j]);
                if k == key {
                    assert(after[j].0.ord() == after[i].0.ord());
                }
            }
        }
    }
}

/// Removing an entry removes its key from the map.
pub proof fn lemma_remove_at<K: OrdKey, V>(entries: Seq<(K, V)>, i: int)
    requires
        ascending(entries),
        0 <= i < entries.len(),
    ensures
        ascending(entries.remove(i)),
        entry_map(entries.remove(i)) == entry_map(entries).remove(entries[i].0),
{
    let key = entries[i].0;
    let after = entries.remove(i);
    assert forall|a: int, b: int|
        #![trigger after[a], after[b]]
        0 <= a < b < after.len() implies after[a].0.ord() < after[b].0.ord() by {
        let pa = if a < i { a } else { a + 1 };
        let pb = if b < i { b } else { b + 1 };
        assert(after[a] == entries[pa]);
        assert(after[b] == entries[pb]);
    }
    assert(entry_map(after) =~= entry_map(entries).remove(key)) by {
        assert forall|k: K|
            entry_map(after).contains_key(k) <==> #[trigger] entry_map(entries).remove(
                key,
            ).contains_key(k) by {
            if entry_map(after).contains_key(k) {
                let j = lemma_key_has_entry(after, k);
                let p = if j < i { j } else { j + 1 };
                assert(after[j] == entries[p]);
                lemma_entry_in_map(entries, p);
                if k == key {
                    assert(entries[p].0.ord() == entries[i].0.ord());
                }
            }
            if entry_map(entries).contains_key(k) && k != key {
                let j = lemma_key_has_entry(entries, k);
                let p = if j < i { j } else { j - 1 };
                assert(after[p] == entries[j]);
                lemma_entry_in_map(after, p);
            }
        }
        assert forall|k: K| entry_map(after).contains_key(k) implies #[trigger] entry_map(after)[k]
            == entry_map(entries).remove(key)[k] by {
            let j = lemma_key_has_entry(after, k);
            let p = if j < i { j } else { j + 1 };
            assert(after[j] == entries[p]);
            lemma_entry_in_map(entries, p);
        }
    }
}

impl<K: OrdKey, V> SortedMap<K, V> {
    /// The entries are in ascending key order.
    pub open spec fn wf(&self) -> bool {
        ascending(self.entries@)
    }

    /// Creates an empty map.
    pub fn new() -> (r: Self)
        ensures
            r.wf(),
            r.entries@.len() == 0,
            r@ == Map::<K, V>::empty(),
    {
        let r = SortedMap { entries: Vec::new() };
        assert(r@ =~= Map::<K, V>::empty());
        r
    }

    /// Returns the number of keys.
    pub fn len(&self) -> (r: usize)
        requires
            self.wf(),
        ensures
            r == self.entries@.len(),
            r == self@.dom().len(),
    {
        proof {
            lemma_entry_map_len(self.entries@);
        }
        self.entries.len()
    }

    /// Returns `true` if the map has no key.
    pub fn is_empty(&self) -> (r: bool)
        requires
            self.wf(),
        ensures
            r == (self@ == Map::<K, V>::empty()),
            r == (self.entries@.len() == 0),
    {
        proof {
            if self.entries@.len() == 0 {
                assert(self@ =~= Map::<K, V>::empty());
            } else {
                lemma_entry_in_map(self.entries@, 0);
            }
        }
        self.entries.len() == 0
    }

    /// Returns the index of the first entry whose key is not before `key`.
    pub fn lower_bound(&self, key: &K) -> (r: usize)
        requires
            self.wf(),
        ensures
            r <= self.entries@.len(),
            forall|j: int|
                0 <= j < r ==> (#[trigger] self.entries@[j]).0.ord() < key.ord(),
            forall|j: int|
                r <= j < self.entries@.len() ==> key.ord() <= (#[trigger] self.entries@[j]).0.ord(),
    {
        let mut lo: usize = 0;
        let mut hi: usize = self.entries.len();
        while lo < hi
            invariant
                self.wf(),
                lo <= hi <= self.entries@.len(),
                forall|j: int|
                    0 <= j < lo ==> (#[trigger] self.entries@[j]).0.ord() < key.ord(),
                forall|j: int|
                    hi <= j < self.entries@.len() ==> key.ord() <= (
                    #[trigger] self.entries@[j]).0.ord(),
            decreases hi - lo,
        {
            let mid: usize = lo + (hi - lo) / 2;
            if self.entries[mid].0.precedes(key) {
                lo = mid + 1;
            } else {
                hi = mid;
            }
        }
        lo
    }

    /// Returns the index of the entry that holds `key`.
    pub fn find(&self, key: &K) -> (r: Option<usize>)
        requires
            self.wf(),
        ensures
            match r {
                Some(i) => i < self.entries@.len() && self.entries@[i as int].0 == *key
                    && self@.contains_key(*key) && self@[*key] == self.entries@[i as int].1,
                None => !self@.contains_key(*key),
            },
    {
        let i: usize = self.lower_bound(key);
        if i < self.entries.len() && !key.precedes(&self.entries[i].0) {
            proof {
                key.ord_injective(self.entries@[i as int].0);
                lemma_entry_in_map(self.entries@, i as int);
            }
            Some(i)
        } else {
            proof {
                if self@.contains_key(*key) {
                    let j = lemma_key_has_entry(self.entries@, *key);
                    assert(self.entries@[j].0.ord() == key.ord());
                }
            }
            None
        }
    }

    /// Returns `true` if the map holds `key`.
    pub fn contains_key(&self, key: &K) -> (r: bool)
        requires
            self.wf(),
        ensures
            r == self@.contains_key(*key),
    {
        self.find(key).is_some()
    }

    /// Returns the value of `key`.
    pub fn get(&self, key: &K) -> (r: Option<&V>)
        requires
            self.wf(),
        ensures
            match r {
                Some(v) => self@.contains_key(*key) && self@[*key] == *v,
                None => !self@.contains_key(*key),
            },
    {
        match self.find(key) {
            Some(i) => Some(&self.entries[i].1),
            None => None,
        }
    }

    /// Sets the value of `key`, returning the value it had.
    pub fn insert(&mut self, key: K, value: V) -> (r: Option<V>)
        requires
            old(self).wf(),
        ensures
            final(self).wf(),
            final(self)@ == old(self)@.insert(key, value),
            match r {
                Some(v) => old(self)@.contains_key(key) && old(self)@[key] == v,
                None => !old(self)@.contains_key(key),
            },
    {
        let i: usize = self.lower_bound(&key);
        if i < self.entries.len() && !key.precedes(&self.entries[i].0) {
            proof {
                key.ord_injective(self.entries@[i as int].0);
                lemma_entry_in_map(self.entries@, i as int);
                lemma_insert_over(self.entries@, i as int, key, value);
            }
            let before = self.entries.remove(i);
            self.entries.insert(i, (key, value));
            Some(before.1)
        } else {
            proof {
                lemma_insert_at(self.entries@, i as int, key, value);
            }
            self.entries.insert(i, (key, value));
            None
        }
    }

    /// Removes `key`, returning the value it had.
    pub fn remove(&mut self, key: &K) -> (r: Option<V>)
        requires
            old(self).wf(),
        ensures
            final(self).wf(),
            final(self)@ == old(self)@.remove(*key),
            match r {
                Some(v) => old(self)@.contains_key(*key) && old(self)@[*key] == v,
                None => !old(self)@.contains_key(*key),
            },
    {
        match self.find(key) {
            Some(i) => {
                proof {
                    lemma_remove_at(self.entries@, i as int);
                }
                let before = self.entries.remove(i);
                Some(before.1)
            },
            None => {
                assert(self@ =~= self@.remove(*key));
                None
            },
        }
    }

    /// Removes the entry with the first key.
    pub fn pop_first(&mut self) -> (r: (K, V))
        requires
            old(self).wf(),
            old(self).entries@.len() > 0,
        ensures
            final(self).wf(),
            r == old(self).entries@[0],
            final(self).entries@ == old(self).entries@.drop_first(),
            old(self)@.contains_key(r.0),
            old(self)@[r.0] == r.1,
            final(self)@ == old(self)@.remove(r.0),
    {
        proof {
            lemma_remove_at(self.entries@, 0);
            lemma_entry_in_map(self.entries@, 0);
            assert(self.entries@.remove(0) =~= self.entries@.drop_first());
        }
        self.entries.remove(0)
    }

    /// Overwrites the value of entry `i`, keeping its key.
    pub fn set_value(&mut self, i: usize, value: V)
        requires
            old(self).wf(),
            i < old(self).entries@.len(),
        ensures
            final(self).wf(),
            final(self).entries@ == old(self).entries@.update(
                i as int,
                (old(self).entries@[i as int].0, value),
            ),
            final(self)@ == old(self)@.insert(old(self).entries@[i as int].0, value),
    {
        proof {
            lemma_update_at(self.entries@, i as int, value);
        }
        let key = self.entries[i].0;
        self.entries.set(i, (key, value));
    }
}

/// Two entry sequences with the same keys stand for maps with the same keys.
pub proof fn lemma_same_keys<K: OrdKey, V>(a: Seq<(K, V)>, b: Seq<(K, V)>)
    requires
        ascending(a),
        a.len() == b.len(),
        forall|i: int| 0 <= i < a.len() ==> (#[trigger] a[i]).0 == b[i].0,
    ensures
        ascending(b),
        entry_map(a).dom() == entry_map(b).dom(),
        forall|i: int|
            0 <= i < a.len() ==> entry_map(b)[(#[trigger] a[i]).0] == b[i].1 && entry_map(
                a,
            ).contains_key(a[i].0) && entry_map(a)[a[i].0] == a[i].1,
{
    assert forall|x: int, y: int|
        #![trigger b[x], b[y]]
        0 <= x < y < b.len() implies b[x].0.ord() < b[y].0.ord() by {
        assert(a[x].0.ord() < a[y].0.ord());
    }
    assert(entry_map(a).dom() =~= entry_map(b).dom()) by {
        assert forall|k: K|
            entry_map(a).dom().contains(k) <==> #[trigger] entry_map(b).dom().contains(k) by {
            if entry_map(a).contains_key(k) {
                let i = lemma_key_has_entry(a, k);
                assert(holds_at(b, k, i));
            }
            if entry_map(b).contains_key(k) {
                let i = lemma_key_has_entry(b, k);
                assert(a[i].0 == k);
                assert(holds_at(a, k, i));
            }
        }
    }
    assert forall|i: int| 0 <= i < a.len() implies entry_map(b)[(#[trigger] a[i]).0] == b[i].1
        && entry_map(a).contains_key(a[i].0) && entry_map(a)[a[i].0] == a[i].1 by {
        lemma_entry_in_map(a, i);
        lemma_entry_in_map(b, i);
    }
}

/// The entries of a finite map in ascending key order.
pub open spec fn sorted_entries<K: OrdKey, V>(m: Map<K, V>) -> Seq<(K, V)> {
    choose|entries: Seq<(K, V)>| ascending(entries) && #[trigger] entry_map(entries) == m
}

/// Two ascending sequences that stand for one map are the same.
pub proof fn lemma_ascending_unique<K: OrdKey, V>(a: Seq<(K, V)>, b: Seq<(K, V)>)
    requires
        ascending(a),
        ascending(b),
        entry_map(a) == entry_map(b),
    ensures
        a == b,
    decreases a.len(),
{
    lemma_entry_map_len(a);
    lemma_entry_map_len(b);
    if a.len() > 0 {
        let n = a.len() - 1;
        lemma_entry_in_map(a, n);
        lemma_entry_in_map(b, n);
        let i = lemma_key_has_entry(b, a[n].0);
        let j = lemma_key_has_entry(a, b[n].0);
        if i < n {
            assert(b[i].0.ord() < b[n].0.ord());
            if j < n {
                assert(a[j].0.ord() < a[n].0.ord());
            }
        }
        assert(a[n].0 == b[n].0);
        let fa = a.drop_last();
        let fb = b.drop_last();
        lemma_remove_at(a, n);
        lemma_remove_at(b, n);
        assert(a.remove(n) =~= fa);
        assert(b.remove(n) =~= fb);
        lemma_ascending_unique(fa, fb);
        assert(a =~= fa.push(a[n]));
        assert(b =~= fb.push(b[n]));
    }
}

/// The entries of a sorted map are the entries of its map in ascending order.
pub proof fn lemma_sorted_entries<K: OrdKey, V>(entries: Seq<(K, V)>)
    requires
        ascending(entries),
    ensures
        sorted_entries(entry_map(entries)) == entries,
{
    let other = sorted_entries(entry_map(entries));
    lemma_ascending_unique(entries, other);
}

/// Replacing an entry in place by removal and insertion is an overwrite.
proof fn lemma_insert_over<K: OrdKey, V>(entries: Seq<(K, V)>, i: int, key: K, value: V)
    requires
        ascending(entries),
        0 <= i < entries.len(),
        entries[i].0 == key,
    ensures
        ascending(entries.remove(i).insert(i, (key, value))),
        entry_map(entries.remove(i).insert(i, (key, value))) == entry_map(entries).insert(
            key,
            value,
        ),
{
    lemma_update_at(entries, i, value);
    assert(entries.remove(i).insert(i, (key, value)) =~= entries.update(i, (key, value)));
}

} // verus!
