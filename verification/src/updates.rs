//! Following the nonces on chain.
use crate::coherence::{coherent, law_nonces_changed_coherent, law_state_updates_coherent};
use crate::ids::{tx_id, AA2dTransactionId, AASequenceId};
use crate::insertion::{bare, is_run, lemma_run_stops};
use crate::ordered::{
    ascending, entry_map, lemma_entry_in_map, lemma_key_has_entry, lemma_same_keys,
    lemma_sorted_entries, sorted_entries, OrdKey, SortedMap,
};
use crate::pending::share;
use crate::pool::{set_pending, AA2dPool};
use crate::pool_state::{
    ids_between, independent_agree, inv, lemma_marks_keep_inv, queued_between, run_end, same_txs,
    txs_of, without_expiring, without_ids, AA2dInternalTransaction, ById, PoolState,
};
use crate::primitives::{Address, B256, U256};
use crate::removal::{lemma_ids_between_members, lemma_later_sequences};
use crate::transaction::ValidPoolTransaction;
use std::sync::Arc;
use vstd::prelude::*;

verus! {

/// The sequence has a transaction from the given nonce on.
pub open spec fn has_from(by_id: ById, seq: AASequenceId, nonce: u64) -> bool {
    exists|n: u64| nonce <= n && by_id.contains_key(#[trigger] tx_id(seq, n))
}

/// Of the transactions of a sequence from the nonce on chain on, those up to the first gap are
/// pending and those behind it are queued; everything else is as before.
pub open spec fn remarked(by_id: ById, seq: AASequenceId, on_chain_nonce: u64) -> ById {
    let end = run_end(by_id, seq, on_chain_nonce as int);
    Map::new(
        |id: AA2dTransactionId| by_id.contains_key(id),
        |id: AA2dTransactionId|
            if id.seq_id == seq && on_chain_nonce <= id.nonce {
                by_id[id].marked(id.nonce < end)
            } else {
                by_id[id]
            },
    )
}

/// The pool after the nonce on chain of a sequence changed, before the transactions below it are
/// removed.
///
/// The transaction with the nonce on chain is next in line. If there are transactions from that
/// nonce on but none with it, nothing is next in line.
pub open spec fn settled(s: PoolState, seq: AASequenceId, on_chain_nonce: u64) -> PoolState {
    if has_from(s.by_id, seq, on_chain_nonce) {
        PoolState {
            by_id: remarked(s.by_id, seq, on_chain_nonce),
            independent: if s.by_id.contains_key(tx_id(seq, on_chain_nonce)) {
                s.independent.insert(seq, s.by_id[tx_id(seq, on_chain_nonce)].inner)
            } else {
                s.independent.remove(seq)
            },
            ..s
        }
    } else {
        s
    }
}

/// The pool after the nonces on chain of several sequences changed, before the transactions below
/// them are removed.
pub open spec fn all_settled(s: PoolState, changes: Seq<(AASequenceId, u64)>) -> PoolState
    decreases changes.len(),
{
    if changes.len() == 0 {
        s
    } else {
        let (seq, on_chain_nonce) = changes.last();
        settled(all_settled(s, changes.drop_last()), seq, on_chain_nonce)
    }
}

/// The queued transactions that the changes of nonces make pending.
pub open spec fn all_promoted(s: PoolState, changes: Seq<(AASequenceId, u64)>) -> Seq<
    Arc<ValidPoolTransaction>,
>
    decreases changes.len(),
{
    if changes.len() == 0 {
        Seq::empty()
    } else {
        let (seq, on_chain_nonce) = changes.last();
        let by_id = all_settled(s, changes.drop_last()).by_id;
        let end = run_end(by_id, seq, on_chain_nonce as int);
        all_promoted(s, changes.drop_last()) + bare(
            queued_between(by_id, seq, on_chain_nonce as int, end),
        )
    }
}

/// The transactions whose nonce is below that on chain.
pub open spec fn all_mined(by_id: ById, changes: Seq<(AASequenceId, u64)>) -> Seq<
    AA2dTransactionId,
>
    decreases changes.len(),
{
    if changes.len() == 0 {
        Seq::empty()
    } else {
        let (seq, on_chain_nonce) = changes.last();
        all_mined(by_id, changes.drop_last()) + ids_between(by_id, seq, 0, on_chain_nonce as int)
    }
}

/// The pool after the nonces on chain of several sequences changed.
pub open spec fn nonces_changed(s: PoolState, changes: Seq<(AASequenceId, u64)>) -> PoolState {
    without_ids(all_settled(s, changes), all_mined(s.by_id, changes))
}

/// A change of a nonce keeps the invariant and every transaction.
pub proof fn lemma_settled_inv(s: PoolState, seq: AASequenceId, on_chain_nonce: u64)
    requires
        inv(s),
    ensures
        inv(settled(s, seq, on_chain_nonce)),
        same_txs(s.by_id, settled(s, seq, on_chain_nonce).by_id),
{
    reveal(inv);
    let t = settled(s, seq, on_chain_nonce);
    assert(s.by_id.dom() =~= t.by_id.dom());
    assert(independent_agree(t)) by {
        assert forall|q: AASequenceId| #[trigger] t.independent.contains_key(q) implies {
            let id = t.independent[q].transaction.transaction.spec_id();
            id is Some && id->0.seq_id == q
        } by {
            if q != seq || !has_from(s.by_id, seq, on_chain_nonce) {
                assert(s.independent.contains_key(q));
            } else {
                assert(s.by_id.contains_key(tx_id(seq, on_chain_nonce)));
            }
        }
    }
    lemma_marks_keep_inv(s, t);
}

/// Settling sequences keeps the invariant and the transactions.
pub proof fn lemma_all_settled_same(s: PoolState, changes: Seq<(AASequenceId, u64)>)
    requires
        inv(s),
    ensures
        inv(all_settled(s, changes)),
        same_txs(s.by_id, all_settled(s, changes).by_id),
    decreases changes.len(),
{
    if changes.len() > 0 {
        let t = all_settled(s, changes.drop_last());
        lemma_all_settled_same(s, changes.drop_last());
        lemma_settled_inv(t, changes.last().0, changes.last().1);
    }
}

proof fn lemma_ids_between_same(a: ById, b: ById, seq: AASequenceId, lo: int, hi: int)
    requires
        a.dom() == b.dom(),
    ensures
        ids_between(a, seq, lo, hi) == ids_between(b, seq, lo, hi),
    decreases hi - lo,
{
    if lo < hi {
        lemma_ids_between_same(a, b, seq, lo, hi - 1);
        let id = tx_id(seq, (hi - 1) as u64);
        assert(a.contains_key(id) == a.dom().contains(id));
        assert(b.contains_key(id) == b.dom().contains(id));
    }
}

/// What is mined is in the pool, each transaction once, and belongs to a changed sequence.
pub proof fn lemma_all_mined_members(by_id: ById, changes: Seq<(AASequenceId, u64)>)
    requires
        ascending(changes),
    ensures
        all_mined(by_id, changes).no_duplicates(),
        forall|j: int|
            0 <= j < all_mined(by_id, changes).len() ==> {
                let id = #[trigger] all_mined(by_id, changes)[j];
                &&& by_id.contains_key(id)
                &&& exists|k: int|
                    0 <= k < changes.len() && (#[trigger] changes[k]).0 == id.seq_id && id.nonce
                        < changes[k].1
            },
    decreases changes.len(),
{
    if changes.len() > 0 {
        let front = changes.drop_last();
        let (seq, nonce) = changes.last();
        assert forall|x: int, y: int|
            #![trigger front[x], front[y]]
            0 <= x < y < front.len() implies front[x].0.ord() < front[y].0.ord() by {
            assert(changes[x].0.ord() < changes[y].0.ord());
        }
        lemma_all_mined_members(by_id, front);
        lemma_ids_between_members(by_id, seq, 0, nonce as int);
        let a = all_mined(by_id, front);
        let b = ids_between(by_id, seq, 0, nonce as int);
        let all = all_mined(by_id, changes);
        assert forall|j: int| 0 <= j < all.len() implies {
            let id = #[trigger] all[j];
            &&& by_id.contains_key(id)
            &&& exists|k: int|
                0 <= k < changes.len() && (#[trigger] changes[k]).0 == id.seq_id && id.nonce
                    < changes[k].1
        } by {
            if j < a.len() {
                assert(all[j] == a[j]);
                let k = choose|k: int|
                    0 <= k < front.len() && (#[trigger] front[k]).0 == a[j].seq_id && a[j].nonce
                        < front[k].1;
                assert(changes[k] == front[k]);
            } else {
                assert(all[j] == b[j - a.len()]);
                assert(changes[changes.len() - 1].0 == seq);
            }
        }
        assert forall|x: int, y: int|
            0 <= x < all.len() && 0 <= y < all.len() && x != y implies all[x] != all[y] by {
            let i = if x < y { x } else { y };
            let j = if x < y { y } else { x };
            if i < a.len() && j >= a.len() {
                assert(all[i] == a[i] && all[j] == b[j - a.len()]);
                let k = choose|k: int|
                    0 <= k < front.len() && (#[trigger] front[k]).0 == a[i].seq_id && a[i].nonce
                        < front[k].1;
                assert(changes[k].0.ord() < changes[changes.len() - 1].0.ord());
            } else if j < a.len() {
                assert(all[i] == a[i] && all[j] == a[j]);
            } else {
                assert(all[i] == b[i - a.len()] && all[j] == b[j - a.len()]);
            }
        }
    }
}

/// Entries `first` to `i` hold the transactions of a sequence from a nonce on: a run up to entry
/// `k`, and after a gap the rest.
spec fn is_tail(
    entries: Seq<(AA2dTransactionId, AA2dInternalTransaction)>,
    seq: AASequenceId,
    from: u64,
    first: int,
    k: int,
    i: int,
) -> bool {
    &&& is_run(entries, seq, from, first, k)
    &&& k <= i <= entries.len()
    &&& forall|j: int| first <= j < i ==> (#[trigger] entries[j]).0.seq_id == seq
    &&& i < entries.len() ==> entries[i].0.seq_id != seq
    &&& k < i ==> entries[k].0.nonce > from + (k - first)
}

/// Where the transaction of entry `j` lies in its sequence.
proof fn lemma_tail_entry(
    entries: Seq<(AA2dTransactionId, AA2dInternalTransaction)>,
    seq: AASequenceId,
    from: u64,
    first: int,
    k: int,
    i: int,
    j: int,
)
    requires
        is_tail(entries, seq, from, first, k, i),
        0 <= j < entries.len(),
    ensures
        first <= j < i <==> entries[j].0.seq_id == seq && from <= entries[j].0.nonce,
        first <= j < i ==> (j < k <==> entries[j].0.nonce < from + (k - first)),
{
    if i <= j {
        lemma_later_sequences(entries, seq, i, j);
    } else if k <= j {
        assert(entries[k].0.ord() <= entries[j].0.ord());
    }
}

/// Marking the run of a tail as pending and the rest as queued is what a change of the nonce does.
proof fn lemma_remarked(
    entries: Seq<(AA2dTransactionId, AA2dInternalTransaction)>,
    after: Seq<(AA2dTransactionId, AA2dInternalTransaction)>,
    seq: AASequenceId,
    from: u64,
    first: int,
    k: int,
    i: int,
)
    requires
        is_tail(entries, seq, from, first, k, i),
        after.len() == entries.len(),
        forall|j: int| 0 <= j < entries.len() ==> (#[trigger] entries[j]).0 == after[j].0,
        forall|j: int|
            0 <= j < entries.len() ==> #[trigger] after[j].1 == (if first <= j < i {
                entries[j].1.marked(j < k)
            } else {
                entries[j].1
            }),
    ensures
        entry_map(after) == remarked(entry_map(entries), seq, from),
        run_end(entry_map(entries), seq, from as int) == from + (k - first),
{
    let by_id = entry_map(entries);
    lemma_same_keys(entries, after);
    lemma_run_stops(entries, seq, from, first, k);
    let target = remarked(by_id, seq, from);
    assert(entry_map(after) =~= target) by {
        assert forall|id: AA2dTransactionId| #[trigger] entry_map(after).contains_key(
            id,
        ) implies entry_map(after)[id] == target[id] by {
            let j = lemma_key_has_entry(entries, id);
            assert(entry_map(after)[entries[j].0] == after[j].1);
            lemma_tail_entry(entries, seq, from, first, k, i, j);
        }
    }
}

/// Whether a tail holds anything, and whether it begins with its first nonce.
proof fn lemma_tail_begins(
    entries: Seq<(AA2dTransactionId, AA2dInternalTransaction)>,
    seq: AASequenceId,
    from: u64,
    first: int,
    k: int,
    i: int,
)
    requires
        is_tail(entries, seq, from, first, k, i),
    ensures
        has_from(entry_map(entries), seq, from) == (first < i),
        first < i ==> entry_map(entries).contains_key(tx_id(seq, from)) == (entries[first].0.nonce
            == from),
{
    let by_id = entry_map(entries);
    if has_from(by_id, seq, from) {
        let n = choose|n: u64| from <= n && by_id.contains_key(#[trigger] tx_id(seq, n));
        let j = lemma_key_has_entry(entries, tx_id(seq, n));
        lemma_tail_entry(entries, seq, from, first, k, i, j);
    }
    if first < i {
        lemma_entry_in_map(entries, first);
        lemma_tail_entry(entries, seq, from, first, k, i, first);
        let x = entries[first].0;
        assert(x == tx_id(seq, x.nonce));
        assert(has_from(by_id, seq, from));
        if by_id.contains_key(tx_id(seq, from)) {
            let j = lemma_key_has_entry(entries, tx_id(seq, from));
            if first < j {
                assert(entries[first].0.ord() < entries[j].0.ord());
            }
        }
    }
}

impl AA2dPool {
    /// Applies the change of the nonce on chain of one sequence, adding what becomes pending to
    /// `promoted`.
    fn settle(
        &mut self,
        seq_id: &AASequenceId,
        on_chain_nonce: u64,
        promoted: &mut Vec<Arc<ValidPoolTransaction>>,
    )
        requires
            old(self).wf(),
        ensures
            final(self).wf(),
            final(self)@ == settled(old(self)@, *seq_id, on_chain_nonce),
            final(promoted)@ == old(promoted)@ + bare(
                queued_between(
                    old(self)@.by_id,
                    *seq_id,
                    on_chain_nonce as int,
                    run_end(old(self)@.by_id, *seq_id, on_chain_nonce as int),
                ),
            ),
    {
        let ghost before = self@;
        let ghost entries = self.by_id.entries@;
        let ghost taken = promoted@;
        let start = AA2dTransactionId::new(*seq_id, on_chain_nonce);
        let first: usize = self.by_id.lower_bound(&start);
        let mut i: usize = first;
        let mut next_nonce: u64 = on_chain_nonce;
        let ghost mut k = first as int;
        assert(taken + bare(
            queued_between(before.by_id, *seq_id, on_chain_nonce as int, on_chain_nonce as int),
        ) =~= taken);
        while i < self.by_id.entries.len() && self.by_id.entries[i].0.seq_id == *seq_id
            invariant
                is_run(entries, *seq_id, on_chain_nonce, first as int, k),
                before == old(self)@,
                before.by_id == entry_map(entries),
                self.by_id.wf(),
                *self == (AA2dPool { by_id: self.by_id, ..*old(self) }),
                k <= i <= entries.len(),
                forall|j: int| first <= j < i ==> (#[trigger] entries[j]).0.seq_id == *seq_id,
                k < i ==> entries[k].0.nonce > on_chain_nonce + (k - first),
                next_nonce == (if on_chain_nonce + (k - first) <= u64::MAX {
                    on_chain_nonce + (k - first)
                } else {
                    u64::MAX as int
                }),
                self.by_id.entries@.len() == entries.len(),
                forall|j: int|
                    0 <= j < entries.len() ==> (#[trigger] entries[j]).0
                        == self.by_id.entries@[j].0,
                forall|j: int|
                    0 <= j < entries.len() ==> #[trigger] self.by_id.entries@[j].1 == (if first <= j
                        < i {
                        entries[j].1.marked(j < k)
                    } else {
                        entries[j].1
                    }),
                promoted@ == taken + bare(
                    queued_between(
                        before.by_id,
                        *seq_id,
                        on_chain_nonce as int,
                        on_chain_nonce + (k - first),
                    ),
                ),
            decreases entries.len() - i,
        {
            let ghost end = on_chain_nonce + (k - first);
            proof {
                if k > first {
                    assert(entries[k - 1].0.ord() < entries[i as int].0.ord());
                }
                assert(end <= u64::MAX);
                if k < i {
                    assert(entries[k].0.ord() < entries[i as int].0.ord());
                }
                assert(self.by_id.entries@[i as int].0.nonce == next_nonce ==> k == i);
                lemma_entry_in_map(entries, i as int);
            }
            if self.by_id.entries[i].0.nonce == next_nonce {
                let ghost sofar = queued_between(
                    before.by_id,
                    *seq_id,
                    on_chain_nonce as int,
                    end,
                );
                assert(entries[i as int].0 == tx_id(*seq_id, end as u64));
                let was_pending: bool = set_pending(&mut self.by_id, i, true);
                if !was_pending {
                    promoted.push(share(&self.by_id.entries[i].1.inner.transaction));
                    assert(bare(sofar.push(entries[i as int].1.inner)) =~= bare(sofar).push(
                        entries[i as int].1.inner.transaction,
                    ));
                    assert(promoted@ =~= taken + bare(sofar.push(entries[i as int].1.inner)));
                }
                next_nonce = next_nonce.saturating_add(1);
                proof {
                    k = k + 1;
                }
            } else {
                set_pending(&mut self.by_id, i, false);
            }
            i = i + 1;
        }
        proof {
            lemma_remarked(
                entries,
                self.by_id.entries@,
                *seq_id,
                on_chain_nonce,
                first as int,
                k,
                i as int,
            );
            lemma_tail_begins(entries, *seq_id, on_chain_nonce, first as int, k, i as int);
            lemma_settled_inv(before, *seq_id, on_chain_nonce);
        }
        if first < i {
            if self.by_id.entries[first].0.nonce == on_chain_nonce {
                let inner = self.by_id.entries[first].1.inner.clone();
                proof {
                    lemma_entry_in_map(entries, first as int);
                    assert(entries[first as int].0 == tx_id(*seq_id, on_chain_nonce));
                }
                self.independent_transactions.insert(*seq_id, inner);
            } else {
                self.independent_transactions.remove(seq_id);
            }
        }
        proof {
            let t = settled(before, *seq_id, on_chain_nonce);
            assert(self@.by_id == remarked(before.by_id, *seq_id, on_chain_nonce));
            assert(self@.independent =~= t.independent);
            if !has_from(before.by_id, *seq_id, on_chain_nonce) {
                assert(remarked(before.by_id, *seq_id, on_chain_nonce) =~= before.by_id) by {
                    assert forall|id: AA2dTransactionId| #[trigger] before.by_id.contains_key(
                        id,
                    ) implies before.by_id[id] == remarked(
                        before.by_id,
                        *seq_id,
                        on_chain_nonce,
                    )[id] by {
                        if id.seq_id == *seq_id && on_chain_nonce <= id.nonce {
                            assert(id == tx_id(*seq_id, id.nonce));
                        }
                    }
                }
            }
            assert(self@ =~= t);
        }
    }

    /// Applies changes of nonces on chain: removes the transactions that were mined and marks what
    /// is executable now.
    ///
    /// Returns the transactions that became pending and those that were mined.
    pub fn on_nonce_changes(&mut self, on_chain_ids: &SortedMap<AASequenceId, u64>) -> (r: (
        Vec<Arc<ValidPoolTransaction>>,
        Vec<Arc<ValidPoolTransaction>>,
    ))
        requires
            old(self).wf(),
            on_chain_ids.wf(),
        ensures
            final(self).wf(),
            final(self)@ == nonces_changed(old(self)@, on_chain_ids.entries@),
            r.0@ == all_promoted(old(self)@, on_chain_ids.entries@),
            r.1@ == txs_of(
                old(self)@.by_id,
                all_mined(old(self)@.by_id, on_chain_ids.entries@),
            ),
            coherent(old(self)@) ==> coherent(final(self)@),
    {
        let ghost before = self@;
        let ghost changes = on_chain_ids.entries@;
        proof {
            if coherent(before) {
                law_nonces_changed_coherent(before, changes);
            }
        }
        let mut promoted: Vec<Arc<ValidPoolTransaction>> = Vec::new();
        let mut mined_ids: Vec<AA2dTransactionId> = Vec::new();
        let mut i: usize = 0;
        assert(changes.take(0) =~= Seq::empty());
        while i < on_chain_ids.entries.len()
            invariant
                self.wf(),
                inv(before),
                changes == on_chain_ids.entries@,
                i <= changes.len(),
                self@ == all_settled(before, changes.take(i as int)),
                promoted@ == all_promoted(before, changes.take(i as int)),
                mined_ids@ == all_mined(before.by_id, changes.take(i as int)),
            decreases changes.len() - i,
        {
            let (seq_id, on_chain_nonce) = on_chain_ids.entries[i];
            proof {
                assert(changes.take(i + 1).drop_last() =~= changes.take(i as int));
                assert(changes.take(i + 1).last() == changes[i as int]);
                lemma_all_settled_same(before, changes.take(i as int));
                lemma_ids_between_same(
                    before.by_id,
                    self@.by_id,
                    seq_id,
                    0,
                    on_chain_nonce as int,
                );
            }
            if on_chain_nonce > 0 {
                let mut mined = self.ids_in_range(&seq_id, 0, on_chain_nonce - 1);
                mined_ids.append(&mut mined);
            } else {
                assert(mined_ids@ + ids_between(before.by_id, seq_id, 0, 0) =~= mined_ids@);
            }
            self.settle(&seq_id, on_chain_nonce, &mut promoted);
            i = i + 1;
        }
        assert(changes.take(i as int) =~= changes);
        let mut mined: Vec<Arc<ValidPoolTransaction>> = Vec::new();
        proof {
            lemma_all_mined_members(before.by_id, changes);
            lemma_all_settled_same(before, changes);
            let ids = mined_ids@;
            assert forall|j: int| 0 <= j < ids.len() implies self@.by_id.contains_key(
                #[trigger] ids[j],
            ) by {
                assert(before.by_id.dom().contains(ids[j]));
                assert(self@.by_id.dom().contains(ids[j]));
            }
            assert(txs_of(self@.by_id, ids) =~= txs_of(before.by_id, ids)) by {
                assert forall|j: int| 0 <= j < ids.len() implies #[trigger] txs_of(
                    self@.by_id,
                    ids,
                )[j] == txs_of(before.by_id, ids)[j] by {
                    assert(before.by_id.contains_key(ids[j]));
                }
            }
        }
        self.remove_ids(&mined_ids, &mut mined);
        assert(Seq::<Arc<ValidPoolTransaction>>::empty() + txs_of(before.by_id, mined_ids@)
            =~= txs_of(before.by_id, mined_ids@));
        (promoted, mined)
    }
}

/// What a block changed of an account.
#[derive(Debug)]
pub struct AccountUpdate {
    /// The account.
    pub address: Address,
    /// Its nonce, if it exists.
    pub nonce: Option<u64>,
    /// The storage slots that changed, each with its new value.
    pub storage: Vec<(U256, U256)>,
}

/// An integer capped at the largest 64-bit one.
pub open spec fn capped_u64(n: int) -> u64 {
    if n <= u64::MAX {
        n as u64
    } else {
        u64::MAX
    }
}

/// The nonces of known sequences that a change of storage slots sets, on top of others.
pub open spec fn slot_nonces(
    s: PoolState,
    storage: Seq<(U256, U256)>,
    nonces: Map<AASequenceId, u64>,
) -> Map<AASequenceId, u64>
    decreases storage.len(),
{
    if storage.len() == 0 {
        nonces
    } else {
        let rest = slot_nonces(s, storage.drop_last(), nonces);
        let (slot, value) = storage.last();
        if s.sequence_slots.contains_key(slot) {
            rest.insert(s.sequence_slots[slot], capped_u64(value@))
        } else {
            rest
        }
    }
}

/// The expiring nonce hashes that a change of storage slots marks as seen.
pub open spec fn seen_hashes(s: PoolState, storage: Seq<(U256, U256)>) -> Seq<B256>
    decreases storage.len(),
{
    if storage.len() == 0 {
        Seq::empty()
    } else {
        let rest = seen_hashes(s, storage.drop_last());
        let (slot, value) = storage.last();
        if value@ != 0 && s.expiring_slots.contains_key(slot) {
            rest.push(s.expiring_slots[slot])
        } else {
            rest
        }
    }
}

/// The nonces that account updates set: those of the slots of the nonce manager, and that of each
/// account for the nonce key zero.
pub open spec fn updated_nonces(
    s: PoolState,
    nonce_manager: Address,
    updates: Seq<AccountUpdate>,
) -> Map<AASequenceId, u64>
    decreases updates.len(),
{
    if updates.len() == 0 {
        Map::empty()
    } else {
        let rest = updated_nonces(s, nonce_manager, updates.drop_last());
        let last = updates.last();
        let with_slots = if last.address == nonce_manager {
            slot_nonces(s, last.storage@, rest)
        } else {
            rest
        };
        with_slots.insert(
            (AASequenceId { address: last.address, nonce_key: U256 { hi: 0, lo: 0 } }),
            match last.nonce {
                Some(nonce) => nonce,
                None => 0,
            },
        )
    }
}

/// The expiring nonce hashes that account updates mark as seen.
pub open spec fn updated_seen(
    s: PoolState,
    nonce_manager: Address,
    updates: Seq<AccountUpdate>,
) -> Seq<B256>
    decreases updates.len(),
{
    if updates.len() == 0 {
        Seq::empty()
    } else {
        let rest = updated_seen(s, nonce_manager, updates.drop_last());
        let last = updates.last();
        if last.address == nonce_manager {
            rest + seen_hashes(s, last.storage@)
        } else {
            rest
        }
    }
}

/// The pool without the transactions of the given expiring nonce hashes.
pub open spec fn without_all_expiring(s: PoolState, hashes: Seq<B256>) -> PoolState
    decreases hashes.len(),
{
    if hashes.len() == 0 {
        s
    } else {
        without_expiring(without_all_expiring(s, hashes.drop_last()), hashes.last())
    }
}

/// The transactions that removing each expiring nonce hash in turn finds.
pub open spec fn found_expiring(s: PoolState, hashes: Seq<B256>) -> Seq<Arc<ValidPoolTransaction>>
    decreases hashes.len(),
{
    if hashes.len() == 0 {
        Seq::empty()
    } else {
        let t = without_all_expiring(s, hashes.drop_last());
        let found = found_expiring(s, hashes.drop_last());
        if t.expiring.contains_key(hashes.last()) {
            found.push(t.expiring[hashes.last()].transaction)
        } else {
            found
        }
    }
}

/// The pool after the nonces that account updates set were applied.
pub open spec fn nonces_updated(
    s: PoolState,
    nonce_manager: Address,
    updates: Seq<AccountUpdate>,
) -> PoolState {
    nonces_changed(s, sorted_entries(updated_nonces(s, nonce_manager, updates)))
}

impl AA2dPool {
    /// Collects what the changed storage slots of the nonce manager say of nonces and of expiring
    /// nonce hashes.
    fn read_slots(
        &self,
        storage: &Vec<(U256, U256)>,
        changes: &mut SortedMap<AASequenceId, u64>,
        included: &mut Vec<B256>,
    )
        requires
            self.wf(),
            old(changes).wf(),
        ensures
            final(changes).wf(),
            final(changes)@ == slot_nonces(self@, storage@, old(changes)@),
            final(included)@ == old(included)@ + seen_hashes(self@, storage@),
    {
        let ghost nonces = changes@;
        let ghost seen = included@;
        let mut i: usize = 0;
        assert(storage@.take(0) =~= Seq::empty());
        assert(seen + seen_hashes(self@, storage@.take(0)) =~= seen);
        while i < storage.len()
            invariant
                self.wf(),
                changes.wf(),
                i <= storage@.len(),
                changes@ == slot_nonces(self@, storage@.take(i as int), nonces),
                included@ == seen + seen_hashes(self@, storage@.take(i as int)),
            decreases storage@.len() - i,
        {
            proof {
                assert(storage@.take(i + 1).drop_last() =~= storage@.take(i as int));
                assert(storage@.take(i + 1).last() == storage@[i as int]);
            }
            let (slot, value) = storage[i];
            match self.slot_to_seq_id.get(&slot) {
                Some(seq_id) => {
                    changes.insert(*seq_id, value.saturating_to());
                },
                None => {},
            }
            if !value.is_zero() {
                match self.slot_to_expiring_nonce_hash.get(&slot) {
                    Some(hash) => {
                        included.push(*hash);
                        assert(included@ =~= seen + seen_hashes(self@, storage@.take(i + 1)));
                    },
                    None => {},
                }
            }
            i = i + 1;
        }
        assert(storage@.take(i as int) =~= storage@);
    }

    /// Applies the state updates of a block, `nonce_manager` being the account whose storage
    /// holds the nonces.
    ///
    /// Returns the transactions that became pending and those that were mined.
    pub fn on_state_updates(&mut self, nonce_manager: &Address, state: &Vec<AccountUpdate>) -> (r: (
        Vec<Arc<ValidPoolTransaction>>,
        Vec<Arc<ValidPoolTransaction>>,
    ))
        requires
            old(self).wf(),
        ensures
            final(self).wf(),
            ({
                let s = old(self)@;
                let nonces = sorted_entries(updated_nonces(s, *nonce_manager, state@));
                let seen = updated_seen(s, *nonce_manager, state@);
                let t = nonces_updated(s, *nonce_manager, state@);
                &&& final(self)@ == without_all_expiring(t, seen)
                &&& r.0@ == all_promoted(s, nonces)
                &&& r.1@ == txs_of(s.by_id, all_mined(s.by_id, nonces)) + found_expiring(t, seen)
            }),
            coherent(old(self)@) ==> coherent(final(self)@),
    {
        let ghost before = self@;
        let mut changes: SortedMap<AASequenceId, u64> = SortedMap::new();
        let mut included: Vec<B256> = Vec::new();
        let mut i: usize = 0;
        assert(state@.take(0) =~= Seq::empty());
        while i < state.len()
            invariant
                self.wf(),
                self@ == before,
                changes.wf(),
                i <= state@.len(),
                changes@ == updated_nonces(before, *nonce_manager, state@.take(i as int)),
                included@ == updated_seen(before, *nonce_manager, state@.take(i as int)),
            decreases state@.len() - i,
        {
            proof {
                assert(state@.take(i + 1).drop_last() =~= state@.take(i as int));
                assert(state@.take(i + 1).last() == state@[i as int]);
            }
            let update = &state[i];
            if update.address == *nonce_manager {
                self.read_slots(&update.storage, &mut changes, &mut included);
            }
            let nonce: u64 = match update.nonce {
                Some(nonce) => nonce,
                None => 0,
            };
            changes.insert(
                AASequenceId { address: update.address, nonce_key: U256 { hi: 0, lo: 0 } },
                nonce,
            );
            i = i + 1;
        }
        assert(state@.take(i as int) =~= state@);
        proof {
            lemma_sorted_entries(changes.entries@);
            if coherent(before) {
                law_state_updates_coherent(before, *nonce_manager, state@, changes.entries@);
            }
        }
        let (promoted, mut mined) = self.on_nonce_changes(&changes);
        let ghost middle = self@;
        let ghost sequential = mined@;
        let mut k: usize = 0;
        assert(included@.take(0) =~= Seq::empty());
        assert(sequential + found_expiring(middle, included@.take(0)) =~= sequential);
        while k < included.len()
            invariant
                self.wf(),
                k <= included@.len(),
                self@ == without_all_expiring(middle, included@.take(k as int)),
                mined@ == sequential + found_expiring(middle, included@.take(k as int)),
            decreases included@.len() - k,
        {
            assert(included@.take(k + 1).drop_last() =~= included@.take(k as int));
            match self.remove_expiring_nonce_tx(&included[k]) {
                Some(tx) => {
                    mined.push(tx);
                    assert(mined@ =~= sequential + found_expiring(middle, included@.take(k + 1)));
                },
                None => {},
            }
            k = k + 1;
        }
        assert(included@.take(k as int) =~= included@);
        (promoted, mined)
    }
}

} // verus!
