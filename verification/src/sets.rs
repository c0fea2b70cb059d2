//! Sets and maps of sets, kept in ascending order.
use crate::ordered::{lemma_entry_in_map, lemma_entry_map_len, lemma_key_has_entry, OrdKey, SortedMap};
use vstd::prelude::*;

verus! {

/// A set, iterated in ascending order.
pub type SortedSet<K> = SortedMap<K, ()>;

/// The sets that a map holds.
pub open spec fn sets<A, K: OrdKey>(m: Map<A, SortedSet<K>>) -> Map<A, Set<K>> {
    Map::new(|a: A| m.contains_key(a), |a: A| m[a]@.dom())
}

/// All sets of a map are in order.
pub open spec fn all_sorted<A, K: OrdKey>(m: Map<A, SortedSet<K>>) -> bool {
    forall|a: A| #[trigger] m.contains_key(a) ==> m[a].wf()
}

/// The sets after a member was added to one of them.
pub open spec fn with_member<A, K>(m: Map<A, Set<K>>, a: A, k: K) -> Map<A, Set<K>> {
    if m.contains_key(a) {
        m.insert(a, m[a].insert(k))
    } else {
        m.insert(a, Set::empty().insert(k))
    }
}

/// The sets after a member was taken from one of them, which is dropped if that was the last.
pub open spec fn without_member<A, K>(m: Map<A, Set<K>>, a: A, k: K) -> Map<A, Set<K>> {
    if !m.contains_key(a) {
        m
    } else if m[a].remove(k) == Set::<K>::empty() {
        m.remove(a)
    } else {
        m.insert(a, m[a].remove(k))
    }
}

/// Adds a member to one of the sets.
pub fn add_member<A: OrdKey, K: OrdKey>(map: &mut SortedMap<A, SortedSet<K>>, a: A, k: K)
    requires
        old(map).wf(),
        all_sorted(old(map)@),
    ensures
        final(map).wf(),
        all_sorted(final(map)@),
        sets(final(map)@) == with_member(sets(old(map)@), a, k),
{
    let mut set: SortedSet<K> = match map.remove(&a) {
        Some(set) => set,
        None => SortedMap::new(),
    };
    let ghost before = set@.dom();
    set.insert(k, ());
    assert(set@.dom() =~= before.insert(k));
    map.insert(a, set);
    proof {
        if !old(map)@.contains_key(a) {
            assert(before =~= Set::empty());
        }
        assert(sets(map@) =~= with_member(sets(old(map)@), a, k));
    }
}

/// Takes a member from one of the sets, and drops the set if that was the last.
pub fn remove_member<A: OrdKey, K: OrdKey>(map: &mut SortedMap<A, SortedSet<K>>, a: A, k: &K)
    requires
        old(map).wf(),
        all_sorted(old(map)@),
    ensures
        final(map).wf(),
        all_sorted(final(map)@),
        sets(final(map)@) == without_member(sets(old(map)@), a, *k),
{
    match map.remove(&a) {
        Some(mut set) => {
            let ghost before = set@.dom();
            set.remove(k);
            assert(set@.dom() =~= before.remove(*k));
            if !set.is_empty() {
                proof {
                    lemma_entry_in_map(set.entries@, 0);
                    assert(set@.dom().contains(set.entries@[0].0));
                }
                map.insert(a, set);
                assert(sets(map@) =~= sets(old(map)@).insert(a, before.remove(*k)));
            } else {
                proof {
                    assert(set@.dom() =~= Set::empty());
                    assert(sets(map@) =~= sets(old(map)@).remove(a));
                }
            }
        },
        None => {
            assert(sets(map@) =~= sets(old(map)@));
        },
    }
}

/// Returns `true` if a map of sets is empty.
pub fn no_sets<A: OrdKey, K: OrdKey>(map: &SortedMap<A, SortedSet<K>>) -> (r: bool)
    requires
        map.wf(),
    ensures
        r == (sets(map@) == Map::<A, Set<K>>::empty()),
{
    let r = map.is_empty();
    proof {
        if r {
            assert(sets(map@) =~= Map::empty());
        } else {
            lemma_entry_in_map(map.entries@, 0);
            assert(sets(map@).contains_key(map.entries@[0].0));
        }
    }
    r
}

/// Returns `true` if a set is empty.
pub fn no_members<K: OrdKey>(set: &SortedSet<K>) -> (r: bool)
    requires
        set.wf(),
    ensures
        r == (set@.dom() == Set::<K>::empty()),
{
    let r = set.is_empty();
    proof {
        if r {
            assert(set@.dom() =~= Set::empty());
        } else {
            lemma_entry_in_map(set.entries@, 0);
            assert(set@.dom().contains(set.entries@[0].0));
        }
    }
    r
}

/// The members of a set, in ascending order.
pub open spec fn member_list<K>(entries: Seq<(K, ())>) -> Seq<K> {
    entries.map_values(|e: (K, ())| e.0)
}

/// The members in ascending order are those of the set, each once.
pub proof fn lemma_member_list<K: OrdKey>(set: SortedSet<K>)
    requires
        set.wf(),
    ensures
        member_list(set.entries@).len() == set@.dom().len(),
        set@.dom().finite(),
        member_list(set.entries@).no_duplicates(),
        forall|k: K| #[trigger] set@.contains_key(k) <==> member_list(set.entries@).contains(k),
{
    let entries = set.entries@;
    let list = member_list(entries);
    lemma_entry_map_len(entries);
    assert forall|k: K| #[trigger] set@.contains_key(k) <==> list.contains(k) by {
        if set@.contains_key(k) {
            let i = lemma_key_has_entry(entries, k);
            assert(list[i] == k);
        }
        if list.contains(k) {
            let i = choose|i: int| 0 <= i < list.len() && list[i] == k;
            lemma_entry_in_map(entries, i);
        }
    }
    assert forall|i: int, j: int| 0 <= i < list.len() && 0 <= j < list.len() && i != j implies list[i]
        != list[j] by {
        assert(entries[i].0 == list[i] && entries[j].0 == list[j]);
    }
}

/// Collects members into a set.
pub fn to_set<K: OrdKey>(members: &Vec<K>) -> (r: SortedSet<K>)
    ensures
        r.wf(),
        r@.dom() == members@.to_set(),
{
    let mut r: SortedSet<K> = SortedMap::new();
    let mut i: usize = 0;
    assert(r@.dom() =~= members@.take(0).to_set());
    while i < members.len()
        invariant
            r.wf(),
            i <= members@.len(),
            r@.dom() == members@.take(i as int).to_set(),
        decreases members@.len() - i,
    {
        r.insert(members[i], ());
        proof {
            let before = members@.take(i as int);
            let after = members@.take(i + 1);
            assert(after =~= before.push(members@[i as int]));
            assert(after.to_set() =~= before.to_set().insert(members@[i as int])) by {
                assert forall|k: K| #[trigger] after.to_set().contains(k) <==> before.to_set().insert(
                    members@[i as int],
                ).contains(k) by {
                    if before.contains(k) {
                        let j = choose|j: int| 0 <= j < before.len() && before[j] == k;
                        assert(after[j] == k);
                    }
                    assert(after[i as int] == members@[i as int]);
                    if after.contains(k) {
                        let j = choose|j: int| 0 <= j < after.len() && after[j] == k;
                        if j < i {
                            assert(before[j] == k);
                        }
                    }
                }
            }
            assert(r@.dom() =~= after.to_set());
        }
        i = i + 1;
    }
    assert(members@.take(i as int) =~= members@);
    r
}

} // verus!
