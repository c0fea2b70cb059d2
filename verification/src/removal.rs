//! Taking transactions out of the pool.
use crate::coherence::{
    coherent, law_removed_hashes_coherent, law_without_families_coherent,
    law_without_hashes_coherent,
};
use crate::ids::{tx_id, AA2dTransactionId, AASequenceId};
use crate::ordered::{
    ascending, lemma_entry_in_map, lemma_key_has_entry, lemma_same_keys, OrdKey, SortedMap,
};
use crate::pending::{share, PendingTransaction};
use crate::pool::{set_pending, AA2dPool};
use crate::pool_state::{
    follows_any, found_ids, found_txs, held_as_expiring, held_by_id, ids_between, inv,
    lemma_ids_between_skip, lemma_new_marks_keep_inv, lemma_own_hashes, lemma_without_tx_hashes,
    lemma_without_tx_inv, queued_above, queued_after, txs_of, without_hashes, without_ids,
    without_tx, AA2dInternalTransaction, ById, PoolState,
};
use crate::primitives::{Address, TxHash};
use crate::queries::{picked, selected};
use crate::transaction::ValidPoolTransaction;
use std::sync::Arc;
use vstd::prelude::*;

verus! {

/// In ascending order, the transactions of later sequences come last.
pub proof fn lemma_later_sequences(
    entries: Seq<(AA2dTransactionId, AA2dInternalTransaction)>,
    seq: AASequenceId,
    i: int,
    j: int,
)
    requires
        ascending(entries),
        0 <= i <= j < entries.len(),
        entries[i].0.ord() >= tx_id(seq, 0).ord(),
        entries[i].0.seq_id != seq,
    ensures
        entries[j].0.seq_id != seq,
{
    let x = entries[i].0;
    let y = entries[j].0;
    if x.seq_id.ord() == seq.ord() {
        x.seq_id.ord_injective(seq);
    }
    assert(x.ord() <= y.ord());
}

impl AA2dPool {
    /// Queues all transactions of a sequence with a nonce above `min_nonce`.
    pub(crate) fn demote_from_nonce(&mut self, seq_id: &AASequenceId, min_nonce: u64)
        requires
            old(self).wf(),
        ensures
            final(self).wf(),
            final(self)@ == (PoolState {
                by_id: queued_above(old(self)@.by_id, *seq_id, min_nonce),
                ..old(self)@
            }),
    {
        let ghost before = self@;
        let ghost entries = self.by_id.entries@;
        let start = AA2dTransactionId::new(*seq_id, min_nonce);
        let mut i: usize = self.by_id.lower_bound(&start);
        let ghost first = i as int;
        while i < self.by_id.entries.len() && self.by_id.entries[i].0.seq_id == *seq_id
            invariant
                ascending(entries),
                self.by_id.wf(),
                start == tx_id(*seq_id, min_nonce),
                first <= i <= entries.len(),
                self.by_id.entries@.len() == entries.len(),
                forall|j: int|
                    0 <= j < first ==> (#[trigger] entries[j]).0.ord() < start.ord(),
                forall|j: int|
                    first <= j < entries.len() ==> start.ord() <= (#[trigger] entries[j]).0.ord(),
                forall|j: int|
                    first <= j < i ==> (#[trigger] entries[j]).0.seq_id == *seq_id,
                forall|j: int|
                    0 <= j < entries.len() ==> (#[trigger] entries[j]).0
                        == self.by_id.entries@[j].0,
                forall|j: int|
                    0 <= j < entries.len() ==> #[trigger] self.by_id.entries@[j].1 == (if first <= j
                        < i && entries[j].0.nonce > min_nonce {
                        entries[j].1.marked(false)
                    } else {
                        entries[j].1
                    }),
                *self == (AA2dPool { by_id: self.by_id, ..*old(self) }),
            decreases entries.len() - i,
        {
            if self.by_id.entries[i].0.nonce > min_nonce {
                set_pending(&mut self.by_id, i, false);
            }
            i = i + 1;
        }
        proof {
            lemma_same_keys(entries, self.by_id.entries@);
            let target = queued_above(before.by_id, *seq_id, min_nonce);
            assert(self.by_id@ =~= target) by {
                assert forall|id: AA2dTransactionId| #[trigger] self.by_id@.contains_key(
                    id,
                ) implies self.by_id@[id] == target[id] by {
                    let j = lemma_key_has_entry(entries, id);
                    assert(self.by_id@[entries[j].0] == self.by_id.entries@[j].1);
                    if i <= j {
                        lemma_later_sequences(entries, *seq_id, i as int, j);
                    }
                }
            }
            lemma_new_marks_keep_inv(before, target);
            assert(self@ =~= (PoolState { by_id: target, ..before }));
        }
    }

    /// Queues all descendants of the given transaction, which leave a nonce gap behind them.
    pub(crate) fn demote_descendants(&mut self, id: &AA2dTransactionId)
        requires
            old(self).wf(),
        ensures
            final(self).wf(),
            final(self)@ == (PoolState {
                by_id: queued_above(old(self)@.by_id, id.seq_id, id.nonce),
                ..old(self)@
            }),
    {
        self.demote_from_nonce(&id.seq_id, id.nonce);
    }

    /// Removes a transaction by its hash without queueing its descendants.
    ///
    /// Returns the transaction, and its identifier if it has a sequential nonce.
    pub(crate) fn remove_transaction_by_hash_no_demote(&mut self, tx_hash: &TxHash) -> (r: Option<
        (Arc<ValidPoolTransaction>, Option<AA2dTransactionId>),
    >)
        requires
            old(self).wf(),
        ensures
            final(self).wf(),
            match r {
                Some((tx, id)) => {
                    &&& old(self)@.by_hash.contains_key(*tx_hash)
                    &&& tx == old(self)@.by_hash[*tx_hash]
                    &&& id == (if held_as_expiring(old(self)@, *tx) {
                        None
                    } else {
                        tx.transaction.spec_id()
                    })
                    &&& id is Some || held_as_expiring(old(self)@, *tx)
                    &&& final(self)@ == without_tx(old(self)@, *tx)
                },
                None => !old(self)@.by_hash.contains_key(*tx_hash) && final(self)@ == old(self)@,
            },
    {
        let ghost before = self@;
        let tx = match self.by_hash.get(tx_hash) {
            Some(tx) => share(tx),
            None => {
                return None;
            },
        };
        proof {
            lemma_without_tx_hashes(before, *tx_hash);
        }
        match tx.transaction.expiring_nonce_hash() {
            Some(expiring_hash) => {
                if tx.transaction.is_expiring_nonce() {
                    let held: bool = match self.expiring_nonce_txs.get(&expiring_hash) {
                        Some(other) => *other.transaction.hash() == *tx.hash(),
                        None => false,
                    };
                    if held {
                        self.remove_expiring_nonce_tx(&expiring_hash);
                        return Some((tx, None));
                    }
                }
            },
            None => {},
        }
        match tx.transaction.aa_transaction_id() {
            Some(id) => {
                self.remove_transaction_by_id(&id);
                Some((tx, Some(id)))
            },
            None => {
                assert(false);
                None
            },
        }
    }

    /// Removes a transaction by its hash and queues its descendants, since it leaves a nonce gap.
    pub(crate) fn remove_transaction_by_hash(&mut self, tx_hash: &TxHash) -> (r: Option<
        Arc<ValidPoolTransaction>,
    >)
        requires
            old(self).wf(),
        ensures
            final(self).wf(),
            match r {
                Some(tx) => {
                    &&& old(self)@.by_hash.contains_key(*tx_hash)
                    &&& tx == old(self)@.by_hash[*tx_hash]
                    &&& final(self)@ == removed_with_gap(old(self)@, *tx)
                },
                None => !old(self)@.by_hash.contains_key(*tx_hash) && final(self)@ == old(self)@,
            },
    {
        match self.remove_transaction_by_hash_no_demote(tx_hash) {
            Some((tx, id)) => {
                match id {
                    Some(id) => {
                        self.demote_descendants(&id);
                    },
                    None => {},
                }
                Some(tx)
            },
            None => None,
        }
    }

    /// Removes the transactions of the given hashes.
    ///
    /// The transactions that follow a removed one in its sequence are queued.
    pub fn remove_transactions(&mut self, tx_hashes: &[TxHash]) -> (r: Vec<
        Arc<ValidPoolTransaction>,
    >)
        requires
            old(self).wf(),
        ensures
            final(self).wf(),
            r@ == found_txs(old(self)@, tx_hashes@),
            final(self)@ == removed_hashes(old(self)@, tx_hashes@),
            coherent(old(self)@) ==> coherent(final(self)@),
    {
        let ghost before = self@;
        proof {
            if coherent(before) {
                law_removed_hashes_coherent(before, tx_hashes@);
            }
        }
        let mut txs: Vec<Arc<ValidPoolTransaction>> = Vec::new();
        let mut gaps: SortedMap<AASequenceId, u64> = SortedMap::new();
        let mut i: usize = 0;
        assert(tx_hashes@.take(0) =~= Seq::empty());
        while i < tx_hashes.len()
            invariant
                self.wf(),
                gaps.wf(),
                i <= tx_hashes@.len(),
                self@ == without_hashes(before, tx_hashes@.take(i as int)),
                txs@ == found_txs(before, tx_hashes@.take(i as int)),
                least_nonces(gaps@, found_ids(before, tx_hashes@.take(i as int))),
            decreases tx_hashes@.len() - i,
        {
            let ghost head = tx_hashes@.take(i as int);
            let ghost next = tx_hashes@.take(i + 1);
            let ghost ids = found_ids(before, head);
            assert(next.drop_last() =~= head);
            assert(next.last() == tx_hashes@[i as int]);
            match self.remove_transaction_by_hash_no_demote(&tx_hashes[i]) {
                Some((tx, id)) => {
                    match id {
                        Some(id) => {
                            let least: u64 = match gaps.get(&id.seq_id) {
                                Some(least) => if *least < id.nonce {
                                    *least
                                } else {
                                    id.nonce
                                },
                                None => id.nonce,
                            };
                            let ghost gaps_before = gaps@;
                            gaps.insert(id.seq_id, least);
                            proof {
                                lemma_least_nonces_push(gaps_before, ids, id);
                            }
                        },
                        None => {},
                    }
                    txs.push(tx);
                },
                None => {},
            }
            i = i + 1;
        }
        assert(tx_hashes@.take(i as int) =~= tx_hashes@);
        let ghost ids = found_ids(before, tx_hashes@);
        let ghost middle = self@;
        let mut k: usize = 0;
        assert(queued_by_gaps(middle.by_id, gaps.entries@.take(0)) =~= middle.by_id);
        assert(self@ =~= (PoolState {
            by_id: queued_by_gaps(middle.by_id, gaps.entries@.take(0)),
            ..middle
        }));
        while k < gaps.entries.len()
            invariant
                self.wf(),
                gaps.wf(),
                k <= gaps.entries@.len(),
                self@ == (PoolState {
                    by_id: queued_by_gaps(middle.by_id, gaps.entries@.take(k as int)),
                    ..middle
                }),
            decreases gaps.entries@.len() - k,
        {
            let seq_id = gaps.entries[k].0;
            let least: u64 = gaps.entries[k].1;
            self.demote_from_nonce(&seq_id, least);
            proof {
                let head = gaps.entries@.take(k as int);
                let next = gaps.entries@.take(k + 1);
                let a = queued_above(queued_by_gaps(middle.by_id, head), seq_id, least);
                let b = queued_by_gaps(middle.by_id, next);
                assert(a =~= b) by {
                    assert forall|id: AA2dTransactionId| #[trigger] a.contains_key(
                        id,
                    ) implies a[id] == b[id] by {
                        if after_gap(id, head) {
                            let j = choose|j: int| is_gap_before(id, head, j);
                            assert(is_gap_before(id, next, j));
                        }
                        if after_gap(id, next) {
                            let j = choose|j: int| is_gap_before(id, next, j);
                            if j < k {
                                assert(is_gap_before(id, head, j));
                            }
                        }
                        if id.seq_id == seq_id && id.nonce > least {
                            assert(is_gap_before(id, next, k as int));
                        }
                    }
                }
            }
            k = k + 1;
        }
        proof {
            assert(gaps.entries@.take(k as int) =~= gaps.entries@);
            lemma_gaps_are_follows(middle.by_id, gaps, ids);
            assert(self@ =~= removed_hashes(before, tx_hashes@));
        }
        txs
    }

    /// Returns the identifiers that a sequence has from nonce `lo` to nonce `last`, in ascending
    /// order.
    pub(crate) fn ids_in_range(&self, seq_id: &AASequenceId, lo: u64, last: u64) -> (r: Vec<
        AA2dTransactionId,
    >)
        requires
            self.by_id.wf(),
            lo <= last,
        ensures
            r@ == ids_between(self.by_id@, *seq_id, lo as int, last + 1),
    {
        let start = AA2dTransactionId::new(*seq_id, lo);
        let mut r: Vec<AA2dTransactionId> = Vec::new();
        let mut i: usize = self.by_id.lower_bound(&start);
        let ghost mut next = lo as int;
        proof {
            assert forall|n: u64| lo <= n && #[trigger] self.by_id@.contains_key(
                tx_id(*seq_id, n),
            ) implies exists|j: int|
                i <= j < self.by_id.entries@.len() && self.by_id.entries@[j].0 == tx_id(
                    *seq_id,
                    n,
                ) by {
                let j = lemma_key_has_entry(self.by_id.entries@, tx_id(*seq_id, n));
            }
        }
        while i < self.by_id.entries.len() && self.by_id.entries[i].0.seq_id == *seq_id
            && self.by_id.entries[i].0.nonce <= last
            invariant
                self.by_id.wf(),
                lo <= next <= last + 1,
                i <= self.by_id.entries@.len(),
                i < self.by_id.entries@.len() ==> self.by_id.entries@[i as int].0.ord()
                    >= tx_id(*seq_id, 0).ord() && (self.by_id.entries@[i as int].0.seq_id == *seq_id
                    ==> self.by_id.entries@[i as int].0.nonce >= next),
                forall|n: u64|
                    next <= n && #[trigger] self.by_id@.contains_key(tx_id(*seq_id, n))
                        ==> exists|j: int|
                        i <= j < self.by_id.entries@.len() && self.by_id.entries@[j].0 == tx_id(
                            *seq_id,
                            n,
                        ),
                r@ == ids_between(self.by_id@, *seq_id, lo as int, next),
            decreases self.by_id.entries@.len() - i,
        {
            let id = self.by_id.entries[i].0;
            proof {
                let entries = self.by_id.entries@;
                assert forall|n: u64| next <= n < id.nonce implies !self.by_id@.contains_key(
                    #[trigger] tx_id(*seq_id, n),
                ) by {
                    if self.by_id@.contains_key(tx_id(*seq_id, n)) {
                        let j = choose|j: int|
                            i <= j < entries.len() && entries[j].0 == tx_id(*seq_id, n);
                        assert(entries[i as int].0.ord() <= entries[j].0.ord());
                    }
                }
                lemma_ids_between_skip(
                    self.by_id@,
                    *seq_id,
                    lo as int,
                    next,
                    id.nonce as int,
                );
                lemma_entry_in_map(entries, i as int);
                assert(id == tx_id(*seq_id, id.nonce));
                assert forall|n: u64| id.nonce + 1 <= n && #[trigger] self.by_id@.contains_key(
                    tx_id(*seq_id, n),
                ) implies exists|j: int|
                    i + 1 <= j < entries.len() && entries[j].0 == tx_id(*seq_id, n) by {
                    let j = choose|j: int|
                        i <= j < entries.len() && entries[j].0 == tx_id(*seq_id, n);
                    assert(entries[j].0.nonce == n);
                    assert(i + 1 <= j);
                }
                if i + 1 < entries.len() {
                    assert(entries[i as int].0.ord() < entries[i + 1].0.ord());
                    let x = entries[i + 1].0;
                    if x.seq_id == *seq_id {
                        assert(x.nonce > id.nonce);
                    }
                }
            }
            r.push(id);
            i = i + 1;
            proof {
                next = id.nonce + 1;
            }
        }
        proof {
            let entries = self.by_id.entries@;
            assert forall|n: u64| next <= n < last + 1 implies !self.by_id@.contains_key(
                #[trigger] tx_id(*seq_id, n),
            ) by {
                if self.by_id@.contains_key(tx_id(*seq_id, n)) {
                    let j = choose|j: int|
                        i <= j < entries.len() && entries[j].0 == tx_id(*seq_id, n);
                    if entries[i as int].0.seq_id != *seq_id {
                        lemma_later_sequences(entries, *seq_id, i as int, j);
                    } else {
                        assert(entries[i as int].0.ord() <= entries[j].0.ord());
                    }
                }
            }
            lemma_ids_between_skip(self.by_id@, *seq_id, lo as int, next, last + 1);
        }
        r
    }

    /// Removes the transactions of the given identifiers, adding them to `removed`.
    pub(crate) fn remove_ids(
        &mut self,
        ids: &Vec<AA2dTransactionId>,
        removed: &mut Vec<Arc<ValidPoolTransaction>>,
    )
        requires
            old(self).wf(),
            ids@.no_duplicates(),
            forall|j: int|
                0 <= j < ids@.len() ==> old(self)@.by_id.contains_key(#[trigger] ids@[j]),
        ensures
            final(self).wf(),
            final(self)@ == without_ids(old(self)@, ids@),
            final(removed)@ == old(removed)@ + txs_of(old(self)@.by_id, ids@),
    {
        let ghost before = self@;
        let ghost taken = removed@;
        let mut i: usize = 0;
        assert(ids@.take(0) =~= Seq::empty());
        assert(taken + txs_of(before.by_id, ids@.take(0)) =~= taken);
        while i < ids.len()
            invariant
                self.wf(),
                i <= ids@.len(),
                ids@.no_duplicates(),
                forall|j: int|
                    0 <= j < ids@.len() ==> before.by_id.contains_key(#[trigger] ids@[j]),
                self@ == without_ids(before, ids@.take(i as int)),
                removed@ == taken + txs_of(before.by_id, ids@.take(i as int)),
            decreases ids@.len() - i,
        {
            let id = ids[i];
            proof {
                let next = ids@.take(i + 1);
                assert(next.drop_last() =~= ids@.take(i as int));
                lemma_without_ids_keeps(before, ids@.take(i as int), id);
                assert(txs_of(before.by_id, next) =~= txs_of(
                    before.by_id,
                    ids@.take(i as int),
                ).push(before.by_id[id].inner.transaction));
            }
            match self.remove_transaction_by_id(&id) {
                Some(tx) => {
                    removed.push(tx);
                },
                None => {},
            }
            assert(removed@ =~= taken + txs_of(before.by_id, ids@.take(i + 1)));
            i = i + 1;
        }
        assert(ids@.take(i as int) =~= ids@);
    }

    /// Removes only the descendants of the given transaction, adding them to `removed`.
    pub(crate) fn remove_descendants(
        &mut self,
        id: &AA2dTransactionId,
        removed: &mut Vec<Arc<ValidPoolTransaction>>,
    )
        requires
            old(self).wf(),
        ensures
            final(self).wf(),
            final(self)@ == without_ids(old(self)@, ids_after(old(self)@.by_id, *id)),
            final(removed)@ == old(removed)@ + txs_of(
                old(self)@.by_id,
                ids_after(old(self)@.by_id, *id),
            ),
    {
        if id.nonce == u64::MAX {
            assert(removed@ + txs_of(self@.by_id, Seq::empty()) =~= removed@);
            return ;
        }
        let ids = self.ids_in_range(&id.seq_id, id.nonce + 1, u64::MAX);
        proof {
            lemma_ids_between_members(self@.by_id, id.seq_id, id.nonce + 1, u64::MAX + 1);
        }
        self.remove_ids(&ids, removed);
    }

    /// Removes the transactions of the given hashes, each together with its descendants.
    pub fn remove_transactions_and_descendants(&mut self, hashes: &[TxHash]) -> (r: Vec<
        Arc<ValidPoolTransaction>,
    >)
        requires
            old(self).wf(),
        ensures
            final(self).wf(),
            final(self)@ == without_families(old(self)@, hashes@),
            r@ == found_families(old(self)@, hashes@),
            coherent(old(self)@) ==> coherent(final(self)@),
    {
        let ghost before = self@;
        proof {
            if coherent(before) {
                law_without_families_coherent(before, hashes@);
            }
        }
        let mut removed: Vec<Arc<ValidPoolTransaction>> = Vec::new();
        let mut i: usize = 0;
        assert(hashes@.take(0) =~= Seq::empty());
        while i < hashes.len()
            invariant
                self.wf(),
                i <= hashes@.len(),
                self@ == without_families(before, hashes@.take(i as int)),
                removed@ == found_families(before, hashes@.take(i as int)),
            decreases hashes@.len() - i,
        {
            proof {
                assert(hashes@.take(i + 1).drop_last() =~= hashes@.take(i as int));
            }
            match self.remove_transaction_by_hash(&hashes[i]) {
                Some(tx) => {
                    let id = tx.transaction.aa_transaction_id();
                    removed.push(tx);
                    match id {
                        Some(id) => {
                            self.remove_descendants(&id, &mut removed);
                        },
                        None => {},
                    }
                },
                None => {},
            }
            i = i + 1;
        }
        assert(hashes@.take(i as int) =~= hashes@);
        removed
    }

    /// Removes all transactions of the given sender.
    pub fn remove_transactions_by_sender(&mut self, sender_id: Address) -> (r: Vec<
        Arc<ValidPoolTransaction>,
    >)
        requires
            old(self).wf(),
        ensures
            final(self).wf(),
            r@ == selected(*old(self), from_sender(sender_id)),
            final(self)@ == without_hashes(old(self)@, hashes_of(r@)),
            forall|hash: TxHash| #[trigger]
                final(self)@.by_hash.contains_key(hash) <==> old(self)@.by_hash.contains_key(hash)
                    && old(self)@.by_hash[hash].transaction.inner.sender != sender_id,
            coherent(old(self)@) ==> coherent(final(self)@),
    {
        let ghost before = self@;
        let ghost pool = *self;
        let mut removed: Vec<Arc<ValidPoolTransaction>> = Vec::new();
        let txs = self.get_transactions_by_sender(sender_id);
        assert(from_sender(sender_id) =~= (|tx: ValidPoolTransaction, pending: bool|
            tx.transaction.inner.sender == sender_id));
        let ghost hashes = hashes_of(txs@);
        let mut i: usize = 0;
        assert(hashes.take(0) =~= Seq::empty());
        assert(txs@.take(0) =~= Seq::empty());
        proof {
            lemma_selected_hashes(pool, from_sender(sender_id));
        }
        while i < txs.len()
            invariant
                self.wf(),
                inv(before),
                i <= txs@.len(),
                hashes == hashes_of(txs@),
                hashes.no_duplicates(),
                forall|j: int|
                    0 <= j < txs@.len() ==> before.by_hash.contains_key(
                        (#[trigger] txs@[j]).spec_hash(),
                    ) && before.by_hash[txs@[j].spec_hash()] == txs@[j],
                self@ == without_hashes(before, hashes.take(i as int)),
                removed@ == txs@.take(i as int),
            decreases txs@.len() - i,
        {
            proof {
                assert(hashes.take(i + 1).drop_last() =~= hashes.take(i as int));
                lemma_without_hashes(before, hashes.take(i as int));
                assert(hashes[i as int] == txs@[i as int].spec_hash());
                assert(!hashes.take(i as int).contains(hashes[i as int]));
            }
            match self.remove_transaction_by_hash_no_demote(txs[i].hash()) {
                Some((tx, _)) => {
                    removed.push(tx);
                },
                None => {},
            }
            i = i + 1;
            assert(removed@ =~= txs@.take(i as int));
        }
        proof {
            assert(hashes.take(i as int) =~= hashes);
            assert(txs@.take(i as int) =~= txs@);
            lemma_without_hashes(before, hashes);
            if coherent(before) {
                law_without_hashes_coherent(before, hashes);
            }
            lemma_own_hashes(before);
            assert forall|hash: TxHash| #[trigger] self@.by_hash.contains_key(hash) <==>
                before.by_hash.contains_key(hash)
                && before.by_hash[hash].transaction.inner.sender != sender_id by {
                if before.by_hash.contains_key(hash) {
                    if before.by_hash[hash].transaction.inner.sender == sender_id {
                        assert(txs@.contains(before.by_hash[hash]));
                        let j = choose|j: int| 0 <= j < txs@.len() && txs@[j]
                            == before.by_hash[hash];
                        assert(hashes[j] == hash);
                    } else if hashes.contains(hash) {
                        let j = choose|j: int| 0 <= j < hashes.len() && hashes[j] == hash;
                        assert(before.by_hash[txs@[j].spec_hash()] == txs@[j]);
                        assert(from_sender(sender_id)(*txs@[j], true));
                    }
                }
            }
        }
        removed
    }
}

/// The pool without a transaction that it holds, its descendants queued.
pub open spec fn removed_with_gap(s: PoolState, tx: ValidPoolTransaction) -> PoolState {
    let t = without_tx(s, tx);
    if held_as_expiring(s, tx) {
        t
    } else {
        let id = tx.transaction.spec_id()->0;
        PoolState { by_id: queued_above(t.by_id, id.seq_id, id.nonce), ..t }
    }
}

/// The pool without the transactions of the given hashes, what follows them queued.
pub open spec fn removed_hashes(s: PoolState, hashes: Seq<TxHash>) -> PoolState {
    let t = without_hashes(s, hashes);
    PoolState { by_id: queued_after(t.by_id, found_ids(s, hashes)), ..t }
}

/// The identifiers that follow the given one in its sequence, in ascending order.
pub open spec fn ids_after(by_id: ById, id: AA2dTransactionId) -> Seq<AA2dTransactionId> {
    ids_between(by_id, id.seq_id, id.nonce + 1, u64::MAX + 1)
}

/// The pool without a transaction and its descendants.
pub open spec fn without_family(s: PoolState, tx: ValidPoolTransaction) -> PoolState {
    let t = removed_with_gap(s, tx);
    match tx.transaction.spec_id() {
        Some(id) => without_ids(t, ids_after(t.by_id, id)),
        None => t,
    }
}

/// A transaction followed by its descendants.
pub open spec fn family(s: PoolState, tx: Arc<ValidPoolTransaction>) -> Seq<
    Arc<ValidPoolTransaction>,
> {
    let t = removed_with_gap(s, *tx);
    match tx.transaction.spec_id() {
        Some(id) => seq![tx] + txs_of(t.by_id, ids_after(t.by_id, id)),
        None => seq![tx],
    }
}

/// The pool after each hash in turn was looked up and its transaction, if any, removed with its
/// descendants.
pub open spec fn without_families(s: PoolState, hashes: Seq<TxHash>) -> PoolState
    decreases hashes.len(),
{
    if hashes.len() == 0 {
        s
    } else {
        let t = without_families(s, hashes.drop_last());
        if t.by_hash.contains_key(hashes.last()) {
            without_family(t, *t.by_hash[hashes.last()])
        } else {
            t
        }
    }
}

/// The transactions that looking up each hash in turn and removing it with its descendants finds.
pub open spec fn found_families(s: PoolState, hashes: Seq<TxHash>) -> Seq<
    Arc<ValidPoolTransaction>,
>
    decreases hashes.len(),
{
    if hashes.len() == 0 {
        Seq::empty()
    } else {
        let t = without_families(s, hashes.drop_last());
        let found = found_families(s, hashes.drop_last());
        if t.by_hash.contains_key(hashes.last()) {
            found + family(t, t.by_hash[hashes.last()])
        } else {
            found
        }
    }
}

/// The map holds, for each sequence among the identifiers, the least nonce among them.
spec fn least_nonces(least: Map<AASequenceId, u64>, ids: Seq<AA2dTransactionId>) -> bool {
    &&& forall|j: int|
        0 <= j < ids.len() ==> least.contains_key((#[trigger] ids[j]).seq_id)
            && least[ids[j].seq_id] <= ids[j].nonce
    &&& forall|seq: AASequenceId| #[trigger]
        least.contains_key(seq) ==> ids.contains(tx_id(seq, least[seq]))
}

proof fn lemma_least_nonces_push(
    least: Map<AASequenceId, u64>,
    ids: Seq<AA2dTransactionId>,
    id: AA2dTransactionId,
)
    requires
        least_nonces(least, ids),
    ensures
        least_nonces(
            least.insert(
                id.seq_id,
                if least.contains_key(id.seq_id) && least[id.seq_id] < id.nonce {
                    least[id.seq_id]
                } else {
                    id.nonce
                },
            ),
            ids.push(id),
        ),
{
    let n = if least.contains_key(id.seq_id) && least[id.seq_id] < id.nonce {
        least[id.seq_id]
    } else {
        id.nonce
    };
    let after = least.insert(id.seq_id, n);
    let all = ids.push(id);
    assert forall|j: int| 0 <= j < all.len() implies after.contains_key((#[trigger] all[j]).seq_id)
        && after[all[j].seq_id] <= all[j].nonce by {
        if j < ids.len() {
            assert(all[j] == ids[j]);
        }
    }
    assert forall|seq: AASequenceId| #[trigger] after.contains_key(seq) implies all.contains(
        tx_id(seq, after[seq]),
    ) by {
        if seq == id.seq_id && n == id.nonce {
            assert(all[ids.len() as int] == tx_id(seq, n));
        } else {
            assert(least.contains_key(seq));
            let j = choose|j: int| 0 <= j < ids.len() && ids[j] == tx_id(seq, least[seq]);
            assert(all[j] == tx_id(seq, after[seq]));
        }
    }
}

/// Gap `j` lies before the transaction in its sequence.
spec fn is_gap_before(id: AA2dTransactionId, gaps: Seq<(AASequenceId, u64)>, j: int) -> bool {
    0 <= j < gaps.len() && gaps[j].0 == id.seq_id && gaps[j].1 < id.nonce
}

/// Some gap lies before the transaction in its sequence.
spec fn after_gap(id: AA2dTransactionId, gaps: Seq<(AASequenceId, u64)>) -> bool {
    exists|j: int| is_gap_before(id, gaps, j)
}

/// The transactions behind a gap are queued; everything else is as before.
spec fn queued_by_gaps(by_id: ById, gaps: Seq<(AASequenceId, u64)>) -> ById {
    Map::new(
        |id: AA2dTransactionId| by_id.contains_key(id),
        |id: AA2dTransactionId|
            if after_gap(id, gaps) {
                by_id[id].marked(false)
            } else {
                by_id[id]
            },
    )
}

proof fn lemma_gaps_are_follows(
    by_id: ById,
    gaps: SortedMap<AASequenceId, u64>,
    ids: Seq<AA2dTransactionId>,
)
    requires
        gaps.wf(),
        least_nonces(gaps@, ids),
    ensures
        queued_by_gaps(by_id, gaps.entries@) == queued_after(by_id, ids),
{
    assert forall|id: AA2dTransactionId| after_gap(id, gaps.entries@) <==> #[trigger] follows_any(
        id,
        ids,
    ) by {
        if after_gap(id, gaps.entries@) {
            let j = choose|j: int| is_gap_before(id, gaps.entries@, j);
            lemma_entry_in_map(gaps.entries@, j);
            let seq = gaps.entries@[j].0;
            assert(gaps@.contains_key(seq));
            let k = choose|k: int| 0 <= k < ids.len() && ids[k] == tx_id(seq, gaps@[seq]);
            assert(ids[k].nonce < id.nonce);
        }
        if follows_any(id, ids) {
            let k = choose|k: int|
                0 <= k < ids.len() && (#[trigger] ids[k]).seq_id == id.seq_id && ids[k].nonce
                    < id.nonce;
            let j = lemma_key_has_entry(gaps.entries@, ids[k].seq_id);
            assert(is_gap_before(id, gaps.entries@, j));
        }
    }
    assert(queued_by_gaps(by_id, gaps.entries@) =~= queued_after(by_id, ids));
}

/// The identifiers of a range are those of the pool in it, none twice.
pub proof fn lemma_ids_between_members(by_id: ById, seq: AASequenceId, lo: int, hi: int)
    requires
        0 <= lo,
        hi <= u64::MAX + 1,
    ensures
        ids_between(by_id, seq, lo, hi).no_duplicates(),
        forall|j: int|
            0 <= j < ids_between(by_id, seq, lo, hi).len() ==> {
                let id = #[trigger] ids_between(by_id, seq, lo, hi)[j];
                by_id.contains_key(id) && id.seq_id == seq && lo <= id.nonce < hi
            },
        forall|n: u64|
            lo <= n < hi && by_id.contains_key(#[trigger] tx_id(seq, n)) ==> ids_between(
                by_id,
                seq,
                lo,
                hi,
            ).contains(tx_id(seq, n)),
    decreases hi - lo,
{
    if lo < hi {
        lemma_ids_between_members(by_id, seq, lo, hi - 1);
        let below = ids_between(by_id, seq, lo, hi - 1);
        let all = ids_between(by_id, seq, lo, hi);
        let top = tx_id(seq, (hi - 1) as u64);
        assert forall|n: u64| lo <= n < hi && by_id.contains_key(
            #[trigger] tx_id(seq, n),
        ) implies all.contains(tx_id(seq, n)) by {
            if n < hi - 1 {
                assert(below.contains(tx_id(seq, n)));
                let j = choose|j: int| 0 <= j < below.len() && below[j] == tx_id(seq, n);
                assert(all[j] == tx_id(seq, n));
            } else {
                assert(all.last() == tx_id(seq, n));
            }
        }
    }
}

/// Removing other identifiers leaves a transaction as it is.
pub proof fn lemma_without_ids_keeps(
    s: PoolState,
    ids: Seq<AA2dTransactionId>,
    id: AA2dTransactionId,
)
    requires
        !ids.contains(id),
    ensures
        without_ids(s, ids).by_id.contains_key(id) == s.by_id.contains_key(id),
        s.by_id.contains_key(id) ==> without_ids(s, ids).by_id[id] == s.by_id[id],
    decreases ids.len(),
{
    if ids.len() > 0 {
        let head = ids.drop_last();
        assert(!head.contains(id)) by {
            if head.contains(id) {
                let j = choose|j: int| 0 <= j < head.len() && head[j] == id;
                assert(ids[j] == id);
            }
        }
        assert(ids.last() != id) by {
            assert(ids[ids.len() - 1] == ids.last());
        }
        lemma_without_ids_keeps(s, head, id);
    }
}

/// Picks the transactions of a sender.
pub open spec fn from_sender(sender: Address) -> spec_fn(ValidPoolTransaction, bool) -> bool {
    |tx: ValidPoolTransaction, pending: bool| tx.transaction.inner.sender == sender
}

/// The hashes of transactions.
pub open spec fn hashes_of(txs: Seq<Arc<ValidPoolTransaction>>) -> Seq<TxHash> {
    txs.map_values(|tx: Arc<ValidPoolTransaction>| tx.spec_hash())
}

/// Removing hashes keeps the invariant, and forgets these hashes and no other.
pub proof fn lemma_without_hashes(s: PoolState, hashes: Seq<TxHash>)
    requires
        inv(s),
    ensures
        inv(without_hashes(s, hashes)),
        forall|h: TxHash| #[trigger]
            without_hashes(s, hashes).by_hash.contains_key(h) <==> s.by_hash.contains_key(h)
                && !hashes.contains(h),
        forall|h: TxHash| #[trigger]
            without_hashes(s, hashes).by_hash.contains_key(h) ==> without_hashes(
                s,
                hashes,
            ).by_hash[h] == s.by_hash[h],
    decreases hashes.len(),
{
    if hashes.len() > 0 {
        let head = hashes.drop_last();
        let last = hashes.last();
        let t = without_hashes(s, head);
        lemma_without_hashes(s, head);
        if t.by_hash.contains_key(last) {
            lemma_without_tx_inv(t);
            lemma_without_tx_hashes(t, last);
        }
        assert forall|h: TxHash| hashes.contains(h) <==> head.contains(h) || h == last by {
            if hashes.contains(h) {
                let j = choose|j: int| 0 <= j < hashes.len() && hashes[j] == h;
                if j < head.len() {
                    assert(head[j] == h);
                }
            }
            if head.contains(h) {
                let j = choose|j: int| 0 <= j < head.len() && head[j] == h;
                assert(hashes[j] == h);
            }
            if h == last {
                assert(hashes[hashes.len() - 1] == h);
            }
        }
    }
}

/// What is picked comes from an entry that satisfies the predicate, and each such entry is picked.
pub proof fn lemma_picked_members<K, V, T>(
    entries: Seq<(K, V)>,
    p: spec_fn(V) -> bool,
    f: spec_fn(V) -> T,
)
    ensures
        forall|x: T| #[trigger]
            picked(entries, p, f).contains(x) <==> exists|j: int|
                0 <= j < entries.len() && p((#[trigger] entries[j]).1) && f(entries[j].1) == x,
    decreases entries.len(),
{
    let all = picked(entries, p, f);
    if entries.len() > 0 {
        let head = entries.drop_last();
        let rest = picked(head, p, f);
        lemma_picked_members(head, p, f);
        assert forall|x: T| #[trigger] all.contains(x) <==> exists|j: int|
            0 <= j < entries.len() && p((#[trigger] entries[j]).1) && f(entries[j].1) == x by {
            if all.contains(x) {
                let i = choose|i: int| 0 <= i < all.len() && all[i] == x;
                if i < rest.len() {
                    assert(rest[i] == x);
                    assert(rest.contains(x));
                    let j = choose|j: int|
                        0 <= j < head.len() && p((#[trigger] head[j]).1) && f(head[j].1) == x;
                    assert(entries[j] == head[j]);
                } else {
                    assert(entries[entries.len() - 1] == entries.last());
                }
            }
            if exists|j: int|
                0 <= j < entries.len() && p((#[trigger] entries[j]).1) && f(entries[j].1) == x {
                let j = choose|j: int|
                    0 <= j < entries.len() && p((#[trigger] entries[j]).1) && f(entries[j].1) == x;
                if j < head.len() {
                    assert(head[j] == entries[j]);
                    assert(rest.contains(x));
                    let i = choose|i: int| 0 <= i < rest.len() && rest[i] == x;
                    assert(all[i] == x);
                } else {
                    assert(all.last() == x);
                }
            }
        }
    }
}

/// Entries with different hashes are picked with different hashes.
proof fn lemma_picked_distinct<K, V>(
    entries: Seq<(K, V)>,
    p: spec_fn(V) -> bool,
    f: spec_fn(V) -> Arc<ValidPoolTransaction>,
)
    requires
        forall|i: int, j: int|
            #![trigger entries[i], entries[j]]
            0 <= i < j < entries.len() ==> f(entries[i].1).spec_hash() != f(
                entries[j].1,
            ).spec_hash(),
    ensures
        hashes_of(picked(entries, p, f)).no_duplicates(),
    decreases entries.len(),
{
    if entries.len() > 0 {
        let head = entries.drop_last();
        assert forall|i: int, j: int|
            #![trigger head[i], head[j]]
            0 <= i < j < head.len() implies f(head[i].1).spec_hash() != f(
            head[j].1,
        ).spec_hash() by {
            assert(entries[i] == head[i] && entries[j] == head[j]);
        }
        lemma_picked_distinct(head, p, f);
        let rest = picked(head, p, f);
        let all = picked(entries, p, f);
        lemma_picked_members(head, p, f);
        if p(entries.last().1) {
            let x = f(entries.last().1);
            assert forall|i: int, j: int|
                0 <= i < hashes_of(all).len() && 0 <= j < hashes_of(all).len() && i
                    != j implies hashes_of(all)[i] != hashes_of(all)[j] by {
                let a = if i < j { i } else { j };
                let b = if i < j { j } else { i };
                assert(hashes_of(all)[a] == all[a].spec_hash());
                assert(hashes_of(all)[b] == all[b].spec_hash());
                assert(rest[a] == all[a]);
                assert(hashes_of(rest)[a] == rest[a].spec_hash());
                if b < rest.len() {
                    assert(hashes_of(rest)[b] == rest[b].spec_hash());
                } else {
                    assert(all[b] == x);
                    assert(rest.contains(rest[a]));
                    let k = choose|k: int|
                        0 <= k < head.len() && p((#[trigger] head[k]).1) && f(head[k].1) == rest[a];
                    assert(entries[k] == head[k]);
                    assert(entries[entries.len() - 1] == entries.last());
                }
            }
        }
    }
}

/// The transactions that are selected from a pool have different hashes, stand under them, and
/// satisfy the predicate; and every transaction that satisfies it, pending or not, is selected.
pub proof fn lemma_selected_hashes(
    pool: AA2dPool,
    p: spec_fn(ValidPoolTransaction, bool) -> bool,
)
    requires
        pool.wf(),
    ensures
        hashes_of(selected(pool, p)).no_duplicates(),
        forall|j: int|
            0 <= j < selected(pool, p).len() ==> {
                let tx = #[trigger] selected(pool, p)[j];
                &&& pool@.by_hash.contains_key(tx.spec_hash())
                &&& pool@.by_hash[tx.spec_hash()] == tx
                &&& p(*tx, true) || p(*tx, false)
            },
        forall|hash: TxHash|
            pool@.by_hash.contains_key(hash) && p(*#[trigger] pool@.by_hash[hash], true) && p(
                *pool@.by_hash[hash],
                false,
            ) ==> selected(pool, p).contains(pool@.by_hash[hash]),
{
    reveal(inv);
    let s = pool@;
    let qa = |tx: AA2dInternalTransaction| p(*tx.inner.transaction, tx.is_pending);
    let fa = |tx: AA2dInternalTransaction| tx.inner.transaction;
    let qb = |tx: PendingTransaction| p(*tx.transaction, true);
    let fb = |tx: PendingTransaction| tx.transaction;
    let ea = pool.by_id.entries@;
    let eb = pool.expiring_nonce_txs.entries@;
    let a = picked(ea, qa, fa);
    let b = picked(eb, qb, fb);
    let all = selected(pool, p);
    assert(all == a + b);
    assert forall|i: int, j: int|
        #![trigger ea[i], ea[j]]
        0 <= i < j < ea.len() implies fa(ea[i].1).spec_hash() != fa(ea[j].1).spec_hash() by {
        lemma_entry_in_map(ea, i);
        lemma_entry_in_map(ea, j);
        if fa(ea[i].1).spec_hash() == fa(ea[j].1).spec_hash() {
            crate::pool_state::lemma_hash_has_one_id(s, ea[i].0, ea[j].0);
        }
    }
    assert forall|i: int, j: int|
        #![trigger eb[i], eb[j]]
        0 <= i < j < eb.len() implies fb(eb[i].1).spec_hash() != fb(eb[j].1).spec_hash() by {
        lemma_entry_in_map(eb, i);
        lemma_entry_in_map(eb, j);
        if fb(eb[i].1).spec_hash() == fb(eb[j].1).spec_hash() {
            crate::pool_state::lemma_hash_has_one_expiring(s, eb[i].0, eb[j].0);
        }
    }
    lemma_picked_distinct(ea, qa, fa);
    lemma_picked_distinct(eb, qb, fb);
    lemma_picked_members(ea, qa, fa);
    lemma_picked_members(eb, qb, fb);
    assert forall|j: int| 0 <= j < all.len() implies {
        let tx = #[trigger] all[j];
        &&& s.by_hash.contains_key(tx.spec_hash())
        &&& s.by_hash[tx.spec_hash()] == tx
        &&& p(*tx, true) || p(*tx, false)
    } by {
        if j < a.len() {
            assert(a.contains(a[j]));
            let k = choose|k: int|
                0 <= k < ea.len() && qa((#[trigger] ea[k]).1) && fa(ea[k].1) == a[j];
            lemma_entry_in_map(ea, k);
            assert(s.by_id.contains_key(ea[k].0));
        } else {
            assert(b.contains(b[j - a.len()]));
            let k = choose|k: int|
                0 <= k < eb.len() && qb((#[trigger] eb[k]).1) && fb(eb[k].1) == b[j - a.len()];
            lemma_entry_in_map(eb, k);
            assert(s.expiring.contains_key(eb[k].0));
        }
    }
    assert forall|i: int, j: int|
        0 <= i < hashes_of(all).len() && 0 <= j < hashes_of(all).len() && i
            != j implies hashes_of(all)[i] != hashes_of(all)[j] by {
        let x = if i < j { i } else { j };
        let y = if i < j { j } else { i };
        let n = a.len() as int;
        if y < n {
            assert(hashes_of(a)[x] != hashes_of(a)[y]);
        } else if x >= n {
            assert(hashes_of(b)[x - n] != hashes_of(b)[y - n]);
        } else {
            assert(a.contains(a[x]));
            let k = choose|k: int|
                0 <= k < ea.len() && qa((#[trigger] ea[k]).1) && fa(ea[k].1) == a[x];
            lemma_entry_in_map(ea, k);
            assert(b.contains(b[y - n]));
            let l = choose|l: int|
                0 <= l < eb.len() && qb((#[trigger] eb[l]).1) && fb(eb[l].1) == b[y - n];
            lemma_entry_in_map(eb, l);
            assert(s.by_id.contains_key(ea[k].0) && s.expiring.contains_key(eb[l].0));
        }
    }
    assert forall|hash: TxHash|
        s.by_hash.contains_key(hash) && p(*#[trigger] s.by_hash[hash], true) && p(
            *s.by_hash[hash],
            false,
        ) implies all.contains(s.by_hash[hash]) by {
        let x = s.by_hash[hash];
        if held_by_id(s, x) {
            let k = lemma_key_has_entry(ea, x.transaction.spec_id()->0);
            assert(qa(ea[k].1) && fa(ea[k].1) == x);
            assert(a.contains(x));
            let i = choose|i: int| 0 <= i < a.len() && a[i] == x;
            assert(all[i] == x);
        } else {
            let k = lemma_key_has_entry(eb, x.transaction.spec_expiring_nonce_hash()->0);
            assert(qb(eb[k].1) && fb(eb[k].1) == x);
            assert(b.contains(x));
            let i = choose|i: int| 0 <= i < b.len() && b[i] == x;
            assert(all[a.len() + i] == x);
        }
    }
}

} // verus!
