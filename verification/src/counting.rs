//! Counting the entries of a map that satisfy a predicate.
use crate::ordered::{
    ascending, entry_map, lemma_entry_in_map, lemma_entry_map_len, lemma_key_has_entry, OrdKey,
};
use vstd::prelude::*;

verus! {

/// How many entries of a map satisfy a predicate.
pub open spec fn count<K, V>(m: Map<K, V>, p: spec_fn(K, V) -> bool) -> nat {
    chosen(m, p).len()
}

/// The keys of the entries that satisfy a predicate.
pub open spec fn chosen<K, V>(m: Map<K, V>, p: spec_fn(K, V) -> bool) -> Set<K> {
    m.dom().filter(|k: K| p(k, m[k]))
}

/// At most every entry satisfies a predicate.
pub proof fn lemma_count_bound<K, V>(m: Map<K, V>, p: spec_fn(K, V) -> bool)
    requires
        m.dom().finite(),
    ensures
        chosen(m, p).finite(),
        count(m, p) <= m.dom().len(),
{
    vstd::set_lib::lemma_len_intersect(m.dom(), Set::new(|k: K| p(k, m[k])));
}

/// A new entry adds one to the count if it satisfies the predicate.
pub proof fn lemma_count_insert<K, V>(m: Map<K, V>, p: spec_fn(K, V) -> bool, key: K, value: V)
    requires
        m.dom().finite(),
        !m.contains_key(key),
    ensures
        count(m.insert(key, value), p) == count(m, p) + (if p(key, value) { 1int } else { 0 }),
{
    lemma_count_bound(m, p);
    let after = m.insert(key, value);
    if p(key, value) {
        assert(chosen(after, p) =~= chosen(m, p).insert(key));
    } else {
        assert(chosen(after, p) =~= chosen(m, p));
    }
}

/// Removing an entry takes one off the count if it satisfied the predicate.
pub proof fn lemma_count_remove<K, V>(m: Map<K, V>, p: spec_fn(K, V) -> bool, key: K)
    requires
        m.dom().finite(),
        m.contains_key(key),
    ensures
        count(m.remove(key), p) == count(m, p) - (if p(key, m[key]) { 1int } else { 0 }),
{
    lemma_count_insert(m.remove(key), p, key, m[key]);
    assert(m.remove(key).insert(key, m[key]) =~= m);
}

/// Overwriting an entry exchanges what it adds to the count.
pub proof fn lemma_count_replace<K, V>(m: Map<K, V>, p: spec_fn(K, V) -> bool, key: K, value: V)
    requires
        m.dom().finite(),
        m.contains_key(key),
    ensures
        count(m.insert(key, value), p) == count(m, p) - (if p(key, m[key]) { 1int } else { 0 }) + (
        if p(key, value) { 1int } else { 0 }),
{
    lemma_count_remove(m, p, key);
    lemma_count_insert(m.remove(key), p, key, value);
    assert(m.remove(key).insert(key, value) =~= m.insert(key, value));
}

/// Two maps with the same keys, on which a predicate agrees, have the same count.
pub proof fn lemma_count_same<K, V>(m: Map<K, V>, n: Map<K, V>, p: spec_fn(K, V) -> bool)
    requires
        m.dom() == n.dom(),
        forall|k: K| #[trigger] m.contains_key(k) ==> p(k, m[k]) == p(k, n[k]),
    ensures
        count(m, p) == count(n, p),
{
    assert(chosen(m, p) =~= chosen(n, p)) by {
        assert forall|k: K| chosen(m, p).contains(k) <==> #[trigger] chosen(n, p).contains(k) by {
            if m.contains_key(k) {
                assert(p(k, m[k]) == p(k, n[k]));
            }
        }
    }
}

/// A map with the same keys on which a predicate holds no more often counts no more.
pub proof fn lemma_count_le<K, V>(m: Map<K, V>, n: Map<K, V>, p: spec_fn(K, V) -> bool)
    requires
        m.dom() == n.dom(),
        m.dom().finite(),
        forall|k: K| #[trigger] m.contains_key(k) && p(k, n[k]) ==> p(k, m[k]),
    ensures
        count(n, p) <= count(m, p),
{
    lemma_count_bound(m, p);
    assert(chosen(n, p).subset_of(chosen(m, p))) by {
        assert forall|k: K| chosen(n, p).contains(k) implies #[trigger] chosen(m, p).contains(k) by {
            assert(m.contains_key(k));
        }
    }
    vstd::set_lib::lemma_len_subset(chosen(n, p), chosen(m, p));
}

/// A finite set that is not empty has a least element under a total order.
pub proof fn lemma_least_exists<K>(s: Set<K>, before: spec_fn(K, K) -> bool) -> (least: K)
    requires
        s.finite(),
        s.len() > 0,
        forall|a: K, b: K, c: K| #[trigger]
            before(a, b) && #[trigger] before(b, c) ==> before(a, c),
        forall|a: K, b: K| a != b ==> #[trigger] before(a, b) || before(b, a),
    ensures
        s.contains(least),
        forall|other: K| #[trigger] s.contains(other) && other != least ==> before(least, other),
    decreases s.len(),
{
    let x = s.choose();
    let rest = s.remove(x);
    if rest.len() == 0 {
        assert(rest =~= Set::empty());
        assert forall|other: K| #[trigger] s.contains(other) && other != x implies before(
            x,
            other,
        ) by {
            assert(rest.contains(other));
        }
        x
    } else {
        let y = lemma_least_exists(rest, before);
        assert(before(x, y) || before(y, x));
        if before(x, y) {
            assert forall|other: K| #[trigger] s.contains(other) && other != x implies before(
                x,
                other,
            ) by {
                assert(rest.contains(other));
            }
            x
        } else {
            assert forall|other: K| #[trigger] s.contains(other) && other != y implies before(
                y,
                other,
            ) by {
                if other != x {
                    assert(rest.contains(other));
                }
            }
            y
        }
    }
}

/// A predicate and its opposite together count every entry.
pub proof fn lemma_count_split<K, V>(
    m: Map<K, V>,
    p: spec_fn(K, V) -> bool,
    q: spec_fn(K, V) -> bool,
)
    requires
        m.dom().finite(),
        forall|k: K| #[trigger] m.contains_key(k) ==> p(k, m[k]) != q(k, m[k]),
    ensures
        count(m, p) + count(m, q) == m.dom().len(),
{
    lemma_count_bound(m, p);
    lemma_count_bound(m, q);
    let a = chosen(m, p);
    let b = chosen(m, q);
    assert(a.disjoint(b)) by {
        assert forall|k: K| !(a.contains(k) && b.contains(k)) by {
            if a.contains(k) {
                assert(m.contains_key(k));
            }
        }
    }
    vstd::set_lib::lemma_set_disjoint_lens(a, b);
    assert(a + b =~= m.dom()) by {
        assert forall|k: K| m.dom().contains(k) implies #[trigger] (a + b).contains(k) by {
            assert(m.contains_key(k));
        }
    }
}

/// Nothing satisfies a predicate that counts to zero.
pub proof fn lemma_count_zero<K, V>(m: Map<K, V>, p: spec_fn(K, V) -> bool)
    requires
        m.dom().finite(),
    ensures
        count(m, p) == 0 <==> forall|k: K| #[trigger] m.contains_key(k) ==> !p(k, m[k]),
{
    lemma_count_bound(m, p);
    if count(m, p) == 0 {
        assert(chosen(m, p) =~= Set::empty());
        assert forall|k: K| #[trigger] m.contains_key(k) implies !p(k, m[k]) by {
            assert(!chosen(m, p).contains(k));
        }
    } else if forall|k: K| #[trigger] m.contains_key(k) ==> !p(k, m[k]) {
        assert(chosen(m, p) =~= Set::empty());
    }
}

/// One more entry of an ascending sequence is one more key of its map.
pub proof fn lemma_take_step<K: OrdKey, V>(entries: Seq<(K, V)>, i: int)
    requires
        ascending(entries),
        0 <= i < entries.len(),
    ensures
        ascending(entries.take(i)),
        ascending(entries.take(i + 1)),
        entry_map(entries.take(i)).dom().finite(),
        !entry_map(entries.take(i)).contains_key(entries[i].0),
        entry_map(entries.take(i + 1)) == entry_map(entries.take(i)).insert(
            entries[i].0,
            entries[i].1,
        ),
{
    let a = entries.take(i);
    let b = entries.take(i + 1);
    assert forall|x: int, y: int|
        #![trigger b[x], b[y]]
        0 <= x < y < b.len() implies b[x].0.ord() < b[y].0.ord() by {
        assert(entries[x].0.ord() < entries[y].0.ord());
    }
    assert forall|x: int, y: int|
        #![trigger a[x], a[y]]
        0 <= x < y < a.len() implies a[x].0.ord() < a[y].0.ord() by {
        assert(entries[x].0.ord() < entries[y].0.ord());
    }
    lemma_entry_map_len(a);
    let key = entries[i].0;
    let value = entries[i].1;
    if entry_map(a).contains_key(key) {
        let j = lemma_key_has_entry(a, key);
        assert(entries[j].0.ord() < entries[i].0.ord());
    }
    assert(entry_map(b) =~= entry_map(a).insert(key, value)) by {
        assert(b[i] == (key, value));
        lemma_entry_in_map(b, i);
        assert forall|k: K|
            entry_map(b).contains_key(k) <==> #[trigger] entry_map(a).insert(
                key,
                value,
            ).contains_key(k) by {
            if entry_map(b).contains_key(k) && k != key {
                let j = lemma_key_has_entry(b, k);
                assert(a[j] == b[j]);
                lemma_entry_in_map(a, j);
            }
            if entry_map(a).contains_key(k) {
                let j = lemma_key_has_entry(a, k);
                assert(a[j] == b[j]);
                lemma_entry_in_map(b, j);
            }
        }
        assert forall|k: K| entry_map(b).contains_key(k) implies #[trigger] entry_map(b)[k]
            == entry_map(a).insert(key, value)[k] by {
            if k != key {
                let j = lemma_key_has_entry(b, k);
                assert(a[j] == b[j]);
                lemma_entry_in_map(a, j);
            }
        }
    }
}

} // verus!
