//! Keeping the pool within its limits.
use crate::counting::count;
use crate::ids::AA2dTransactionId;
use crate::ordered::{lemma_entry_in_map, lemma_key_has_entry, OrdKey};
use crate::pending::PendingTransaction;
use crate::pool::AA2dPool;
use crate::pool_state::{
    pending_count, queued_above, queued_count, without_expiring, without_id, ById, PoolState,
};
use crate::primitives::B256;
use crate::transaction::ValidPoolTransaction;
use std::sync::Arc;
use vstd::prelude::*;

verus! {

/// The transaction is the first to go among the pending, or among the queued, ones. Identifiers
/// decide between transactions of one priority and one submission number.
pub open spec fn is_first_out(by_id: ById, pending: bool, id: AA2dTransactionId) -> bool {
    &&& by_id.contains_key(id)
    &&& by_id[id].is_pending == pending
    &&& forall|other: AA2dTransactionId| #[trigger]
        by_id.contains_key(other) && by_id[other].is_pending == pending && other != id
            ==> by_id[id].inner.worse(by_id[other].inner) || (by_id[id].inner.ties(
            by_id[other].inner,
        ) && id.ord() < other.ord())
}

/// The transaction that is the first to go among the pending, or among the queued, ones.
pub open spec fn first_out(by_id: ById, pending: bool) -> Option<AA2dTransactionId> {
    if exists|id: AA2dTransactionId| is_first_out(by_id, pending, id) {
        Some(choose|id: AA2dTransactionId| is_first_out(by_id, pending, id))
    } else {
        None
    }
}

/// The transaction is the first to go among those with expiring nonces.
pub open spec fn is_first_expiring_out(expiring: Map<B256, PendingTransaction>, hash: B256) -> bool {
    &&& expiring.contains_key(hash)
    &&& forall|other: B256| #[trigger]
        expiring.contains_key(other) && other != hash ==> expiring[hash].worse(expiring[other]) || (
        expiring[hash].ties(expiring[other]) && hash.ord() < other.ord())
}

/// The transaction that is the first to go among those with expiring nonces.
pub open spec fn first_expiring_out(expiring: Map<B256, PendingTransaction>) -> Option<B256> {
    if exists|hash: B256| is_first_expiring_out(expiring, hash) {
        Some(choose|hash: B256| is_first_expiring_out(expiring, hash))
    } else {
        None
    }
}

/// There is at most one first to go.
proof fn lemma_first_out_unique(by_id: ById, pending: bool, id: AA2dTransactionId)
    requires
        is_first_out(by_id, pending, id),
    ensures
        first_out(by_id, pending) == Some(id),
{
    let other = choose|other: AA2dTransactionId| is_first_out(by_id, pending, other);
    if other != id {
        assert(by_id.contains_key(other) && by_id.contains_key(id));
    }
}

proof fn lemma_first_expiring_out_unique(expiring: Map<B256, PendingTransaction>, hash: B256)
    requires
        is_first_expiring_out(expiring, hash),
    ensures
        first_expiring_out(expiring) == Some(hash),
{
    let other = choose|other: B256| is_first_expiring_out(expiring, other);
    if other != hash {
        assert(expiring.contains_key(other) && expiring.contains_key(hash));
    }
}

/// A pending transaction that is to be evicted.
pub enum Victim {
    /// One with a sequential nonce.
    Sequential(AA2dTransactionId),
    /// One with an expiring nonce.
    Expiring(B256),
}

/// The pending transaction that is the first to go: of the lowest priority, and of the latest
/// submission among those.
pub open spec fn pending_victim(s: PoolState) -> Option<Victim> {
    match (first_out(s.by_id, true), first_expiring_out(s.expiring)) {
        (Some(id), Some(hash)) => {
            let sequential = s.by_id[id].inner;
            let expiring = s.expiring[hash];
            if expiring.worse(sequential) || expiring.ties(sequential) {
                Some(Victim::Expiring(hash))
            } else {
                Some(Victim::Sequential(id))
            }
        },
        (Some(id), None) => Some(Victim::Sequential(id)),
        (None, Some(hash)) => Some(Victim::Expiring(hash)),
        (None, None) => None,
    }
}

/// The pool without an evicted pending transaction. What follows it in its sequence is queued.
pub open spec fn without_victim(s: PoolState, victim: Victim) -> PoolState {
    match victim {
        Victim::Sequential(id) => {
            let t = without_id(s, id);
            PoolState { by_id: queued_above(t.by_id, id.seq_id, id.nonce), ..t }
        },
        Victim::Expiring(hash) => without_expiring(s, hash),
    }
}

/// The transaction that is evicted.
pub open spec fn victim_tx(s: PoolState, victim: Victim) -> Arc<ValidPoolTransaction> {
    match victim {
        Victim::Sequential(id) => s.by_id[id].inner.transaction,
        Victim::Expiring(hash) => s.expiring[hash].transaction,
    }
}

/// The pool after up to `n` pending transactions were evicted, and these transactions.
pub open spec fn pending_evicted(s: PoolState, n: nat) -> (
    PoolState,
    Seq<Arc<ValidPoolTransaction>>,
)
    decreases n,
{
    if n == 0 {
        (s, Seq::empty())
    } else {
        match pending_victim(s) {
            Some(victim) => {
                let rest = pending_evicted(without_victim(s, victim), (n - 1) as nat);
                (rest.0, seq![victim_tx(s, victim)] + rest.1)
            },
            None => (s, Seq::empty()),
        }
    }
}

/// The pool after up to `n` queued transactions were evicted, and these transactions.
pub open spec fn queued_evicted(s: PoolState, n: nat) -> (
    PoolState,
    Seq<Arc<ValidPoolTransaction>>,
)
    decreases n,
{
    if n == 0 {
        (s, Seq::empty())
    } else {
        match first_out(s.by_id, false) {
            Some(id) => {
                let rest = queued_evicted(without_id(s, id), (n - 1) as nat);
                (rest.0, seq![s.by_id[id].inner.transaction] + rest.1)
            },
            None => (s, Seq::empty()),
        }
    }
}

/// By how much a count is above a limit.
pub open spec fn excess(count: nat, limit: usize) -> nat {
    if count > limit {
        (count - limit) as nat
    } else {
        0
    }
}

/// The pool without as many queued transactions as there are too many of them, and these
/// transactions.
pub open spec fn queued_trimmed(s: PoolState) -> (PoolState, Seq<Arc<ValidPoolTransaction>>) {
    queued_evicted(s, excess(queued_count(s), s.config.queued_limit.max_txs))
}

/// The pool without as many pending transactions as there are too many of them, and these
/// transactions. What follows an evicted transaction in its sequence is queued.
pub open spec fn pending_trimmed(s: PoolState) -> (PoolState, Seq<Arc<ValidPoolTransaction>>) {
    pending_evicted(s, excess(pending_count(s), s.config.pending_limit.max_txs))
}

/// The pool brought within its limits, and the transactions that had to go: first as many queued
/// ones and then as many pending ones as there are too many of each, and at last those queued ones
/// that there are too many of again, as pending ones lost what they follow.
pub open spec fn within_limits(s: PoolState) -> (PoolState, Seq<Arc<ValidPoolTransaction>>) {
    let queued = queued_trimmed(s);
    let pending = pending_trimmed(queued.0);
    let demoted = queued_trimmed(pending.0);
    (demoted.0, queued.1 + pending.1 + demoted.1)
}

impl AA2dPool {
    /// Returns the transaction that is the first to go among the pending, or the queued, ones.
    fn find_first_out(&self, pending: bool) -> (r: Option<AA2dTransactionId>)
        requires
            self.by_id.wf(),
        ensures
            r == first_out(self.by_id@, pending),
            r is None ==> forall|id: AA2dTransactionId| #[trigger]
                self.by_id@.contains_key(id) ==> self.by_id@[id].is_pending != pending,
            r is Some ==> is_first_out(self.by_id@, pending, r->0),
    {
        let mut best: Option<usize> = None;
        let mut i: usize = 0;
        while i < self.by_id.entries.len()
            invariant
                self.by_id.wf(),
                i <= self.by_id.entries@.len(),
                match best {
                    Some(b) => b < i && self.by_id.entries@[b as int].1.is_pending == pending
                        && forall|j: int|
                        0 <= j < i && (#[trigger] self.by_id.entries@[j]).1.is_pending == pending
                            && j != b ==> self.by_id.entries@[b as int].1.inner.worse(
                            self.by_id.entries@[j].1.inner,
                        ) || (self.by_id.entries@[b as int].1.inner.ties(
                            self.by_id.entries@[j].1.inner,
                        ) && b < j),
                    None => forall|j: int|
                        0 <= j < i ==> (#[trigger] self.by_id.entries@[j]).1.is_pending != pending,
                },
            decreases self.by_id.entries@.len() - i,
        {
            if self.by_id.entries[i].1.is_pending == pending {
                match best {
                    Some(b) => {
                        if self.by_id.entries[i].1.inner.is_worse(&self.by_id.entries[b].1.inner) {
                            best = Some(i);
                        }
                    },
                    None => {
                        best = Some(i);
                    },
                }
            }
            i = i + 1;
        }
        match best {
            Some(b) => {
                let id = self.by_id.entries[b].0;
                proof {
                    let entries = self.by_id.entries@;
                    lemma_entry_in_map(entries, b as int);
                    assert forall|other: AA2dTransactionId| #[trigger] self.by_id@.contains_key(
                        other,
                    ) && self.by_id@[other].is_pending == pending && other
                        != id implies self.by_id@[id].inner.worse(self.by_id@[other].inner) || (
                    self.by_id@[id].inner.ties(self.by_id@[other].inner) && id.ord()
                        < other.ord()) by {
                        let j = lemma_key_has_entry(entries, other);
                        assert(entries[j].1.is_pending == pending);
                        if b < j {
                            assert(entries[b as int].0.ord() < entries[j].0.ord());
                        }
                    }
                    lemma_first_out_unique(self.by_id@, pending, id);
                }
                Some(id)
            },
            None => {
                proof {
                    assert forall|id: AA2dTransactionId| #[trigger] self.by_id@.contains_key(
                        id,
                    ) implies self.by_id@[id].is_pending != pending by {
                        let j = lemma_key_has_entry(self.by_id.entries@, id);
                    }
                }
                None
            },
        }
    }

    /// Returns the transaction that is the first to go among those with expiring nonces.
    fn find_first_expiring_out(&self) -> (r: Option<B256>)
        requires
            self.expiring_nonce_txs.wf(),
        ensures
            r == first_expiring_out(self.expiring_nonce_txs@),
            r is None ==> self.expiring_nonce_txs@ == Map::<B256, PendingTransaction>::empty(),
            r is Some ==> self.expiring_nonce_txs@.contains_key(r->0),
    {
        let ghost entries = self.expiring_nonce_txs.entries@;
        if self.expiring_nonce_txs.is_empty() {
            return None;
        }
        let mut best: usize = 0;
        let mut i: usize = 1;
        while i < self.expiring_nonce_txs.entries.len()
            invariant
                self.expiring_nonce_txs.wf(),
                entries == self.expiring_nonce_txs.entries@,
                best < i <= entries.len(),
                forall|j: int|
                    0 <= j < i && j != best ==> entries[best as int].1.worse(
                        (#[trigger] entries[j]).1,
                    ) || (entries[best as int].1.ties(entries[j].1) && best < j),
            decreases entries.len() - i,
        {
            if self.expiring_nonce_txs.entries[i].1.is_worse(
                &self.expiring_nonce_txs.entries[best].1,
            ) {
                best = i;
            }
            i = i + 1;
        }
        let hash = self.expiring_nonce_txs.entries[best].0;
        proof {
            let expiring = self.expiring_nonce_txs@;
            lemma_entry_in_map(entries, best as int);
            assert forall|other: B256| #[trigger] expiring.contains_key(other) && other
                != hash implies expiring[hash].worse(expiring[other]) || (expiring[hash].ties(
                expiring[other],
            ) && hash.ord() < other.ord()) by {
                let j = lemma_key_has_entry(entries, other);
                assert(entries[j].1 == expiring[other]);
                if best < j {
                    assert(entries[best as int].0.ord() < entries[j].0.ord());
                }
            }
            lemma_first_expiring_out_unique(expiring, hash);
        }
        Some(hash)
    }

    /// Evicts a pending transaction with a sequential nonce and queues its descendants.
    fn evict_2d_pending_tx(&mut self, id: &AA2dTransactionId) -> (r: Option<
        Arc<ValidPoolTransaction>,
    >)
        requires
            old(self).wf(),
        ensures
            final(self).wf(),
            match r {
                Some(tx) => old(self)@.by_id.contains_key(*id)
                    && old(self)@.by_id[*id].inner.transaction == tx && final(self)@
                    == without_victim(old(self)@, Victim::Sequential(*id)),
                None => !old(self)@.by_id.contains_key(*id) && final(self)@ == old(self)@,
            },
    {
        match self.remove_transaction_by_id(id) {
            Some(tx) => {
                self.demote_descendants(id);
                Some(tx)
            },
            None => None,
        }
    }

    /// Evicts the pending transaction of the lowest priority; among those of one priority the one
    /// that was submitted last.
    fn evict_one_pending(&mut self) -> (r: Option<Arc<ValidPoolTransaction>>)
        requires
            old(self).wf(),
        ensures
            final(self).wf(),
            match pending_victim(old(self)@) {
                Some(victim) => r == Some(victim_tx(old(self)@, victim)) && final(self)@
                    == without_victim(old(self)@, victim),
                None => r is None && final(self)@ == old(self)@,
            },
    {
        match (self.find_first_out(true), self.find_first_expiring_out()) {
            (Some(id), Some(hash)) => {
                let evict_expiring: bool = match (
                    self.by_id.get(&id),
                    self.expiring_nonce_txs.get(&hash),
                ) {
                    (Some(sequential), Some(expiring)) => !sequential.inner.is_worse(expiring),
                    _ => false,
                };
                if evict_expiring {
                    self.remove_expiring_nonce_tx(&hash)
                } else {
                    self.evict_2d_pending_tx(&id)
                }
            },
            (Some(id), None) => self.evict_2d_pending_tx(&id),
            (None, Some(hash)) => self.remove_expiring_nonce_tx(&hash),
            (None, None) => None,
        }
    }

    /// Evicts up to `count` pending, or queued, transactions, those of the lowest priority first.
    fn evict_lowest_priority(&mut self, count: usize, evict_pending: bool) -> (r: Vec<
        Arc<ValidPoolTransaction>,
    >)
        requires
            old(self).wf(),
        ensures
            final(self).wf(),
            (final(self)@, r@) == (if evict_pending {
                pending_evicted(old(self)@, count as nat)
            } else {
                queued_evicted(old(self)@, count as nat)
            }),
    {
        let ghost before = self@;
        let mut removed: Vec<Arc<ValidPoolTransaction>> = Vec::new();
        let mut left: usize = count;
        let ghost whole = if evict_pending {
            pending_evicted(before, count as nat)
        } else {
            queued_evicted(before, count as nat)
        };
        assert(removed@ + whole.1 =~= whole.1);
        while left > 0
            invariant_except_break
                self.wf(),
                evict_pending ==> whole.0 == pending_evicted(self@, left as nat).0 && whole.1
                    == removed@ + pending_evicted(self@, left as nat).1,
                !evict_pending ==> whole.0 == queued_evicted(self@, left as nat).0 && whole.1
                    == removed@ + queued_evicted(self@, left as nat).1,
            ensures
                self.wf(),
                whole.0 == self@,
                whole.1 == removed@,
            decreases left,
        {
            let ghost sofar = removed@;
            let ghost at = self@;
            if evict_pending {
                match self.evict_one_pending() {
                    Some(tx) => {
                        removed.push(tx);
                        proof {
                            let rest = pending_evicted(self@, (left - 1) as nat).1;
                            assert(sofar + (seq![tx] + rest) =~= removed@ + rest);
                        }
                    },
                    None => {
                        assert(removed@ + Seq::<Arc<ValidPoolTransaction>>::empty() =~= removed@);
                        break;
                    },
                }
            } else {
                match self.find_first_out(false) {
                    Some(id) => {
                        match self.remove_transaction_by_id(&id) {
                            Some(tx) => {
                                removed.push(tx);
                                proof {
                                    let rest = queued_evicted(self@, (left - 1) as nat).1;
                                    assert(sofar + (seq![tx] + rest) =~= removed@ + rest);
                                }
                            },
                            None => {
                                assert(false);
                            },
                        }
                    },
                    None => {
                        assert(removed@ + Seq::<Arc<ValidPoolTransaction>>::empty() =~= removed@);
                        break;
                    },
                }
            }
            left = left - 1;
            proof {
                if left == 0 {
                    assert(removed@ + Seq::<Arc<ValidPoolTransaction>>::empty() =~= removed@);
                }
            }
        }
        removed
    }

    /// Evicts as many queued transactions as there are too many of them.
    fn trim_queued(&mut self) -> (r: Vec<Arc<ValidPoolTransaction>>)
        requires
            old(self).wf(),
        ensures
            final(self).wf(),
            (final(self)@, r@) == queued_trimmed(old(self)@),
    {
        let (_, queued_count) = self.pending_and_queued_txn_count();
        let limit: usize = self.config.queued_limit.max_txs;
        let excess: usize = if queued_count > limit {
            queued_count - limit
        } else {
            0
        };
        self.evict_lowest_priority(excess, false)
    }

    /// Evicts as many pending transactions as there are too many of them.
    fn trim_pending(&mut self) -> (r: Vec<Arc<ValidPoolTransaction>>)
        requires
            old(self).wf(),
        ensures
            final(self).wf(),
            (final(self)@, r@) == pending_trimmed(old(self)@),
    {
        let (pending_count, _) = self.pending_and_queued_txn_count();
        let limit: usize = self.config.pending_limit.max_txs;
        let excess: usize = if pending_count > limit {
            pending_count - limit
        } else {
            0
        };
        self.evict_lowest_priority(excess, true)
    }

    /// Removes the transactions of the lowest priority if the pool is above capacity.
    ///
    /// An evicted pending transaction leaves those that follow it queued, so the queued ones are
    /// counted again after the pending ones.
    ///
    /// Only the number of transactions is limited here, not their size.
    pub(crate) fn discard(&mut self) -> (r: Vec<Arc<ValidPoolTransaction>>)
        requires
            old(self).wf(),
        ensures
            final(self).wf(),
            (final(self)@, r@) == within_limits(old(self)@),
    {
        let mut removed = self.trim_queued();
        let mut evicted = self.trim_pending();
        let mut demoted = self.trim_queued();
        removed.append(&mut evicted);
        removed.append(&mut demoted);
        removed
    }
}

} // verus!
