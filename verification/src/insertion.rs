//! Adding transactions to the pool.
use crate::coherence::{agrees, coherent, law_added_coherent, lemma_accepted_inv};
use crate::counting::{lemma_count_insert, lemma_count_replace};
use crate::eviction::within_limits;
use crate::hardfork::TempoHardfork;
use crate::ids::{tx_id, AA2dTransactionId, AASequenceId};
use crate::invariants::within_quotas;
use crate::ordered::{
    ascending, entry_map, lemma_entry_in_map, lemma_key_has_entry, lemma_same_keys, OrdKey,
    SortedMap,
};
use crate::pending::{
    is_underpriced, priority, share, tip, underpriced, InvalidTransactionError, PendingTransaction,
    PoolError, PoolErrorKind,
};
use crate::pool::{set_pending, AA2dPool};
use crate::pool_laws::law_within_limits;
use crate::pool_state::{
    expiring_agree, expiring_sent_by, hashes_agree, held_as_expiring, held_by_id, held_once,
    ids_agree, independent_agree, inv, lemma_hash_has_one_id, lemma_marks_keep_inv, lemma_run_end,
    next_submission, one_more, pending_run, queued_between, recorded, run_end, same_txs,
    sender_total, senders_agree, sent_by, AA2dInternalTransaction, ById, PoolState,
};
use crate::primitives::{Address, TxHash, B256};
use crate::transaction::ValidPoolTransaction;
use std::sync::Arc;
use vstd::prelude::*;

verus! {

/// The sub-pool that a transaction is parked in.
#[derive(Debug, Clone, Copy, PartialEq, Eq, Structural)]
pub enum SubPool {
    /// Transactions that cannot be executed yet.
    Queued,
    /// Transactions that can be executed.
    Pending,
}

/// Why a transaction is queued.
#[derive(Debug, Clone, Copy, PartialEq, Eq, Structural)]
pub enum QueuedReason {
    /// A transaction with a lower nonce is missing.
    NonceGap,
}

/// A transaction that was added as pending.
#[derive(Debug)]
pub struct AddedPendingTransaction {
    /// The transaction.
    pub transaction: Arc<ValidPoolTransaction>,
    /// The transaction that it replaced, if any.
    pub replaced: Option<Arc<ValidPoolTransaction>>,
    /// The transactions that became pending because it filled a gap.
    pub promoted: Vec<Arc<ValidPoolTransaction>>,
    /// The transactions that had to go to make room.
    pub discarded: Vec<Arc<ValidPoolTransaction>>,
}

/// A transaction that was added to the pool.
#[derive(Debug)]
pub enum AddedTransaction {
    /// The transaction is pending.
    Pending(AddedPendingTransaction),
    /// The transaction is parked.
    Parked {
        /// The transaction.
        transaction: Arc<ValidPoolTransaction>,
        /// The transaction that it replaced, if any.
        replaced: Option<Arc<ValidPoolTransaction>>,
        /// Where it is parked.
        subpool: SubPool,
        /// Why it is parked.
        queued_reason: Option<QueuedReason>,
    },
}

/// The transaction as it is submitted to a pool.
pub open spec fn submitted(
    s: PoolState,
    tx: Arc<ValidPoolTransaction>,
    base_fee: u64,
) -> PendingTransaction {
    PendingTransaction {
        submission_id: s.submission_id,
        priority: tip(tx.transaction, base_fee),
        transaction: tx,
    }
}

/// The transactions with sequential nonces, with a new one put under its identifier as queued.
pub open spec fn placed(
    s: PoolState,
    tx: Arc<ValidPoolTransaction>,
    id: AA2dTransactionId,
    base_fee: u64,
) -> ById {
    s.by_id.insert(
        id,
        (AA2dInternalTransaction { inner: submitted(s, tx, base_fee), is_pending: false }),
    )
}

/// The transaction that a new one replaces.
pub open spec fn replaced_by(s: PoolState, id: AA2dTransactionId) -> Option<
    Arc<ValidPoolTransaction>,
> {
    if s.by_id.contains_key(id) {
        Some(s.by_id[id].inner.transaction)
    } else {
        None
    }
}

/// The pool with a sequential transaction added, before it is brought within its limits.
///
/// The new transaction, and what follows it without a gap, is pending if the nonces from the one
/// on chain up to its own are all there. It is next in line if its nonce is the one on chain.
pub open spec fn added(
    s: PoolState,
    tx: Arc<ValidPoolTransaction>,
    id: AA2dTransactionId,
    on_chain_nonce: u64,
    base_fee: u64,
) -> PoolState {
    let new = submitted(s, tx, base_fee);
    let by_id = placed(s, tx, id, base_fee);
    let end = run_end(by_id, id.seq_id, on_chain_nonce as int);
    let in_line = id.nonce < end;
    let others = match replaced_by(s, id) {
        Some(replaced) => s.by_hash.remove(replaced.spec_hash()),
        None => s.by_hash,
    };
    PoolState {
        by_id: pending_run(by_id, id.seq_id, id.nonce as int, end),
        by_hash: others.insert(tx.spec_hash(), tx),
        senders: if replaced_by(s, id) is Some {
            s.senders
        } else {
            one_more(s.senders, tx.transaction.inner.sender)
        },
        sequence_slots: if tx.transaction.spec_is_aa_2d() {
            s.sequence_slots.insert(tx.transaction.inner.nonce_slot, id.seq_id)
        } else {
            s.sequence_slots
        },
        independent: if in_line && id.nonce == on_chain_nonce {
            s.independent.insert(id.seq_id, new)
        } else {
            s.independent
        },
        new_pending: if in_line {
            s.new_pending.push(new) + queued_between(by_id, id.seq_id, id.nonce + 1, end)
        } else {
            s.new_pending
        },
        ..next_submission(s)
    }
}

/// The pool with an expiring nonce transaction added, before it is brought within its limits.
pub open spec fn added_expiring(
    s: PoolState,
    tx: Arc<ValidPoolTransaction>,
    hash: B256,
    base_fee: u64,
) -> PoolState {
    let new = submitted(s, tx, base_fee);
    PoolState {
        expiring: s.expiring.insert(hash, new),
        expiring_slots: s.expiring_slots.insert(
            tx.transaction.inner.expiring_nonce_seen_slot,
            hash,
        ),
        by_hash: s.by_hash.insert(tx.spec_hash(), tx),
        senders: one_more(s.senders, tx.transaction.inner.sender),
        new_pending: s.new_pending.push(new),
        ..next_submission(s)
    }
}

/// Why the pool refuses a transaction, if it does, and whether its submission number is used up.
pub open spec fn refusal(
    s: PoolState,
    tx: Arc<ValidPoolTransaction>,
    on_chain_nonce: u64,
    hardfork: TempoHardfork,
) -> Option<(PoolErrorKind, bool)> {
    let id = tx.transaction.spec_id()->0;
    let sender = tx.transaction.inner.sender;
    let full = recorded(s.senders, sender) >= s.config.max_txs_per_sender;
    if s.by_hash.contains_key(tx.spec_hash()) {
        Some((PoolErrorKind::AlreadyImported, false))
    } else if hardfork.spec_is_t1() && tx.transaction.spec_is_expiring_nonce() {
        if s.expiring.contains_key(tx.transaction.spec_expiring_nonce_hash()->0) {
            Some((PoolErrorKind::AlreadyImported, false))
        } else if full {
            Some((PoolErrorKind::SpammerExceededCapacity(sender), false))
        } else {
            None
        }
    } else if tx.transaction.inner.nonce < on_chain_nonce {
        Some(
            (
                PoolErrorKind::InvalidTransaction(
                    (InvalidTransactionError::NonceNotConsistent {
                        tx: tx.transaction.inner.nonce,
                        state: on_chain_nonce,
                    }),
                ),
                false,
            ),
        )
    } else if s.by_id.contains_key(id) {
        if underpriced(
            s.by_id[id].inner.transaction.transaction,
            tx.transaction,
            s.config.price_bump_config,
        ) {
            Some((PoolErrorKind::ReplacementUnderpriced, true))
        } else {
            None
        }
    } else if full {
        Some((PoolErrorKind::SpammerExceededCapacity(sender), true))
    } else {
        None
    }
}

/// The pool with a transaction added that it does not refuse, before it is brought within its
/// limits.
pub open spec fn accepted(
    s: PoolState,
    tx: Arc<ValidPoolTransaction>,
    on_chain_nonce: u64,
    hardfork: TempoHardfork,
    base_fee: u64,
) -> PoolState {
    if hardfork.spec_is_t1() && tx.transaction.spec_is_expiring_nonce() {
        added_expiring(s, tx, tx.transaction.spec_expiring_nonce_hash()->0, base_fee)
    } else {
        added(s, tx, tx.transaction.spec_id()->0, on_chain_nonce, base_fee)
    }
}

/// The transactions themselves.
pub open spec fn bare(txs: Seq<PendingTransaction>) -> Seq<Arc<ValidPoolTransaction>> {
    txs.map_values(|tx: PendingTransaction| tx.transaction)
}

/// What the pool answers about a transaction that it does not refuse.
pub open spec fn answers(
    s: PoolState,
    tx: Arc<ValidPoolTransaction>,
    on_chain_nonce: u64,
    hardfork: TempoHardfork,
    base_fee: u64,
    answer: AddedTransaction,
) -> bool {
    let discarded = within_limits(accepted(s, tx, on_chain_nonce, hardfork, base_fee)).1;
    if hardfork.spec_is_t1() && tx.transaction.spec_is_expiring_nonce() {
        answer matches AddedTransaction::Pending(pending) && {
            &&& pending.transaction == tx
            &&& pending.replaced is None
            &&& pending.promoted@ == Seq::<Arc<ValidPoolTransaction>>::empty()
            &&& pending.discarded@ == discarded
        }
    } else {
        let id = tx.transaction.spec_id()->0;
        let by_id = placed(s, tx, id, base_fee);
        let end = run_end(by_id, id.seq_id, on_chain_nonce as int);
        if id.nonce < end {
            answer matches AddedTransaction::Pending(pending) && {
                &&& pending.transaction == tx
                &&& pending.replaced == replaced_by(s, id)
                &&& pending.promoted@ == bare(
                    queued_between(by_id, id.seq_id, id.nonce + 1, end),
                )
                &&& pending.discarded@ == discarded
            }
        } else {
            answer matches AddedTransaction::Parked {
                transaction,
                replaced,
                subpool,
                queued_reason,
            } && {
                &&& transaction == tx
                &&& replaced == replaced_by(s, id)
                &&& subpool == SubPool::Queued
                &&& queued_reason == Some(QueuedReason::NonceGap)
            }
        }
    }
}

proof fn lemma_one_more_agrees(s: PoolState, t: PoolState, sender: Address)
    requires
        senders_agree(s),
        recorded(s.senders, sender) < usize::MAX,
        t.senders == one_more(s.senders, sender),
        forall|a: Address|
            #[trigger] sender_total(t, a) == sender_total(s, a) + (if a == sender {
                1int
            } else {
                0
            }),
    ensures
        senders_agree(t),
{
    assert forall|a: Address| #[trigger] recorded(t.senders, a) == sender_total(t, a) by {
        assert(recorded(s.senders, a) == sender_total(s, a));
    }
    assert forall|a: Address| #[trigger] t.senders.contains_key(a) implies t.senders[a] > 0 by {
        if a != sender {
            assert(s.senders.contains_key(a));
        }
    }
}

/// Adding a sequential transaction keeps the invariant.
pub proof fn lemma_added_inv(
    s: PoolState,
    tx: Arc<ValidPoolTransaction>,
    id: AA2dTransactionId,
    on_chain_nonce: u64,
    base_fee: u64,
)
    requires
        inv(s),
        tx.transaction.spec_id() == Some(id),
        !s.by_hash.contains_key(tx.spec_hash()),
        !s.by_id.contains_key(id) ==> recorded(s.senders, tx.transaction.inner.sender)
            < usize::MAX,
    ensures
        inv(added(s, tx, id, on_chain_nonce, base_fee)),
{
    reveal(inv);
    let t = added(s, tx, id, on_chain_nonce, base_fee);
    let m = PoolState { by_id: placed(s, tx, id, base_fee), independent: s.independent, ..t };
    let sender = tx.transaction.inner.sender;
    let entry = m.by_id[id];
    assert(id.seq_id.address == sender);
    if s.by_id.contains_key(id) {
        assert forall|a: Address| #[trigger] recorded(m.senders, a) == sender_total(m, a) by {
            lemma_count_replace(s.by_id, sent_by(a), id, entry);
            assert(recorded(s.senders, a) == sender_total(s, a));
        }
    } else {
        assert forall|a: Address| #[trigger] sender_total(m, a) == sender_total(s, a) + (if a
            == sender {
            1int
        } else {
            0
        }) by {
            lemma_count_insert(s.by_id, sent_by(a), id, entry);
        }
        lemma_one_more_agrees(s, m, sender);
    }
    assert(ids_agree(m)) by {
        assert forall|x: AA2dTransactionId| #[trigger] m.by_id.contains_key(x) implies {
            let tx = m.by_id[x].inner.transaction;
            &&& tx.transaction.spec_id() == Some(x)
            &&& m.by_hash.contains_key(tx.spec_hash())
            &&& m.by_hash[tx.spec_hash()] == tx
        } by {
            if x != id {
                assert(s.by_id.contains_key(x));
                if s.by_id.contains_key(id) && s.by_id[x].inner.transaction.spec_hash()
                    == s.by_id[id].inner.transaction.spec_hash() {
                    lemma_hash_has_one_id(s, x, id);
                }
            }
        }
    }
    assert(expiring_agree(m)) by {
        assert forall|h: B256| #[trigger] m.expiring.contains_key(h) implies {
            let tx = m.expiring[h].transaction;
            &&& tx.transaction.spec_is_expiring_nonce()
            &&& tx.transaction.spec_expiring_nonce_hash() == Some(h)
            &&& m.by_hash.contains_key(tx.spec_hash())
            &&& m.by_hash[tx.spec_hash()] == tx
        } by {
            assert(s.expiring.contains_key(h));
            if s.by_id.contains_key(id) {
                assert(s.by_id[id].inner.transaction.spec_hash()
                    != s.expiring[h].transaction.spec_hash());
            }
        }
    }
    assert(hashes_agree(m)) by {
        assert forall|h: TxHash| #[trigger] m.by_hash.contains_key(h) implies {
            &&& m.by_hash[h].spec_hash() == h
            &&& held_by_id(m, m.by_hash[h]) || (held_as_expiring(m, *m.by_hash[h])
                && m.expiring[m.by_hash[h].transaction.spec_expiring_nonce_hash()->0].transaction
                == m.by_hash[h])
        } by {
            if h != tx.spec_hash() {
                assert(s.by_hash.contains_key(h));
            }
        }
    }
    assert(held_once(m)) by {
        assert forall|x: AA2dTransactionId, h: B256|
            #![trigger m.by_id.contains_key(x), m.expiring.contains_key(h)]
            m.by_id.contains_key(x) && m.expiring.contains_key(
                h,
            ) implies m.by_id[x].inner.transaction.spec_hash()
            != m.expiring[h].transaction.spec_hash() by {
            assert(s.expiring.contains_key(h));
            if x != id {
                assert(s.by_id.contains_key(x) && s.expiring.contains_key(h));
            }
        }
    }
    assert(independent_agree(m)) by {
        assert forall|q: AASequenceId| #[trigger] m.independent.contains_key(q) implies {
            let id = m.independent[q].transaction.transaction.spec_id();
            id is Some && id->0.seq_id == q
        } by {
            assert(s.independent.contains_key(q));
        }
    }
    assert(inv(m));
    assert(independent_agree(t)) by {
        assert forall|q: AASequenceId| #[trigger] t.independent.contains_key(q) implies {
            let id = t.independent[q].transaction.transaction.spec_id();
            id is Some && id->0.seq_id == q
        } by {
            if q != id.seq_id {
                assert(s.independent.contains_key(q));
            } else {
                assert(s.independent.contains_key(q) || t.independent[q] == submitted(
                    s,
                    tx,
                    base_fee,
                ));
            }
        }
    }
    assert(same_txs(m.by_id, t.by_id)) by {
        assert(m.by_id.dom() =~= t.by_id.dom());
    }
    lemma_marks_keep_inv(m, t);
}

/// Adding an expiring nonce transaction keeps the invariant.
pub proof fn lemma_added_expiring_inv(
    s: PoolState,
    tx: Arc<ValidPoolTransaction>,
    hash: B256,
    base_fee: u64,
)
    requires
        inv(s),
        tx.transaction.spec_is_expiring_nonce(),
        tx.transaction.spec_expiring_nonce_hash() == Some(hash),
        !s.by_hash.contains_key(tx.spec_hash()),
        !s.expiring.contains_key(hash),
        recorded(s.senders, tx.transaction.inner.sender) < usize::MAX,
    ensures
        inv(added_expiring(s, tx, hash, base_fee)),
{
    reveal(inv);
    let t = added_expiring(s, tx, hash, base_fee);
    let sender = tx.transaction.inner.sender;
    let entry = t.expiring[hash];
    assert forall|a: Address| #[trigger] sender_total(t, a) == sender_total(s, a) + (if a
        == sender {
        1int
    } else {
        0
    }) by {
        lemma_count_insert(s.expiring, expiring_sent_by(a), hash, entry);
    }
    lemma_one_more_agrees(s, t, sender);
    assert(ids_agree(t)) by {
        assert forall|x: AA2dTransactionId| #[trigger] t.by_id.contains_key(x) implies {
            let tx = t.by_id[x].inner.transaction;
            &&& tx.transaction.spec_id() == Some(x)
            &&& t.by_hash.contains_key(tx.spec_hash())
            &&& t.by_hash[tx.spec_hash()] == tx
        } by {
            assert(s.by_id.contains_key(x));
        }
    }
    assert(expiring_agree(t)) by {
        assert forall|h: B256| #[trigger] t.expiring.contains_key(h) implies {
            let tx = t.expiring[h].transaction;
            &&& tx.transaction.spec_is_expiring_nonce()
            &&& tx.transaction.spec_expiring_nonce_hash() == Some(h)
            &&& t.by_hash.contains_key(tx.spec_hash())
            &&& t.by_hash[tx.spec_hash()] == tx
        } by {
            if h != hash {
                assert(s.expiring.contains_key(h));
            }
        }
    }
    assert(hashes_agree(t)) by {
        assert forall|h: TxHash| #[trigger] t.by_hash.contains_key(h) implies {
            &&& t.by_hash[h].spec_hash() == h
            &&& held_by_id(t, t.by_hash[h]) || (held_as_expiring(t, *t.by_hash[h])
                && t.expiring[t.by_hash[h].transaction.spec_expiring_nonce_hash()->0].transaction
                == t.by_hash[h])
        } by {
            if h != tx.spec_hash() {
                assert(s.by_hash.contains_key(h));
            }
        }
    }
    assert(held_once(t)) by {
        assert forall|x: AA2dTransactionId, h: B256|
            #![trigger t.by_id.contains_key(x), t.expiring.contains_key(h)]
            t.by_id.contains_key(x) && t.expiring.contains_key(
                h,
            ) implies t.by_id[x].inner.transaction.spec_hash()
            != t.expiring[h].transaction.spec_hash() by {
            assert(s.by_id.contains_key(x));
            if h != hash {
                assert(s.by_id.contains_key(x) && s.expiring.contains_key(h));
            }
        }
    }
    assert(independent_agree(t)) by {
        assert forall|q: AASequenceId| #[trigger] t.independent.contains_key(q) implies {
            let id = t.independent[q].transaction.transaction.spec_id();
            id is Some && id->0.seq_id == q
        } by {
            assert(s.independent.contains_key(q));
        }
    }
}

/// Entries `first` to `i` hold the transactions of a sequence from a nonce on, without a gap, and no
/// entry before them holds a later one.
pub open spec fn is_run(
    entries: Seq<(AA2dTransactionId, AA2dInternalTransaction)>,
    seq: AASequenceId,
    from: u64,
    first: int,
    i: int,
) -> bool {
    &&& ascending(entries)
    &&& 0 <= first <= i <= entries.len()
    &&& from + (i - first) <= u64::MAX + 1
    &&& forall|j: int| 0 <= j < first ==> (#[trigger] entries[j]).0.ord() < tx_id(seq, from).ord()
    &&& forall|j: int|
        first <= j < entries.len() ==> tx_id(seq, from).ord() <= (#[trigger] entries[j]).0.ord()
    &&& forall|j: int|
        first <= j < i ==> (#[trigger] entries[j]).0 == tx_id(seq, (from + (j - first)) as u64)
}

/// A run that is not continued by the next entry ends there.
pub proof fn lemma_run_stops(
    entries: Seq<(AA2dTransactionId, AA2dInternalTransaction)>,
    seq: AASequenceId,
    from: u64,
    first: int,
    i: int,
)
    requires
        is_run(entries, seq, from, first, i),
        i < entries.len() && from + (i - first) <= u64::MAX ==> entries[i].0 != tx_id(
            seq,
            (from + (i - first)) as u64,
        ),
    ensures
        run_end(entry_map(entries), seq, from as int) == from + (i - first),
{
    let by_id = entry_map(entries);
    let end = from + (i - first);
    if end <= u64::MAX && by_id.contains_key(tx_id(seq, end as u64)) {
        let j = lemma_key_has_entry(entries, tx_id(seq, end as u64));
        if i < j {
            let x = entries[i].0;
            assert(x.ord() < entries[j].0.ord());
            assert(tx_id(seq, from).ord() <= x.ord());
            assert(x.seq_id.ord() == seq.ord());
            x.seq_id.ord_injective(seq);
            if i > first {
                assert(entries[i - 1].0.ord() < x.ord());
            }
        } else {
            assert(first <= j < i);
        }
    }
    assert forall|n: u64| from <= n < end implies by_id.contains_key(#[trigger] tx_id(seq, n)) by {
        let j = first + (n - from);
        lemma_entry_in_map(entries, j);
        assert(entries[j].0 == tx_id(seq, n));
    }
    lemma_run_end(by_id, seq, from as int, end);
}

/// Marking the entries of a run from a nonce on marks that part of the run.
proof fn lemma_run_marked(
    entries: Seq<(AA2dTransactionId, AA2dInternalTransaction)>,
    after: Seq<(AA2dTransactionId, AA2dInternalTransaction)>,
    seq: AASequenceId,
    from: u64,
    nonce: u64,
    first: int,
    i: int,
)
    requires
        is_run(entries, seq, from, first, i),
        from <= nonce,
        after.len() == entries.len(),
        forall|j: int| 0 <= j < entries.len() ==> (#[trigger] entries[j]).0 == after[j].0,
        forall|j: int|
            0 <= j < entries.len() ==> #[trigger] after[j].1 == (if first <= j < i
                && entries[j].0.nonce >= nonce {
                entries[j].1.marked(true)
            } else {
                entries[j].1
            }),
    ensures
        entry_map(after) == pending_run(
            entry_map(entries),
            seq,
            nonce as int,
            from + (i - first),
        ),
{
    lemma_same_keys(entries, after);
    let end = from + (i - first);
    let target = pending_run(entry_map(entries), seq, nonce as int, end);
    assert(entry_map(after) =~= target) by {
        assert forall|id: AA2dTransactionId| #[trigger] entry_map(after).contains_key(
            id,
        ) implies entry_map(after)[id] == target[id] by {
            let j = lemma_key_has_entry(entries, id);
            assert(entry_map(after)[entries[j].0] == after[j].1);
            if id.seq_id == seq && nonce <= id.nonce < end {
                let k = first + (id.nonce - from);
                assert(entries[k].0 == id);
                if j < k {
                    assert(entries[j].0.ord() < entries[k].0.ord());
                }
                if k < j {
                    assert(entries[k].0.ord() < entries[j].0.ord());
                }
            }
        }
    }
}

/// Marks the transactions of a sequence as pending that follow each other without a gap from the
/// nonce on chain, from `nonce` on.
///
/// Returns whether `nonce` is reached without a gap, and the transactions above it that were
/// queued before.
fn mark_run(
    by_id: &mut SortedMap<AA2dTransactionId, AA2dInternalTransaction>,
    seq_id: &AASequenceId,
    on_chain_nonce: u64,
    nonce: u64,
) -> (r: (bool, Vec<PendingTransaction>))
    requires
        old(by_id).wf(),
        on_chain_nonce <= nonce,
    ensures
        final(by_id).wf(),
        ({
            let end = run_end(old(by_id)@, *seq_id, on_chain_nonce as int);
            &&& final(by_id)@ == pending_run(old(by_id)@, *seq_id, nonce as int, end)
            &&& r.0 == (nonce < end)
            &&& r.1@ == queued_between(old(by_id)@, *seq_id, nonce + 1, end)
        }),
{
    let ghost before = by_id@;
    let ghost entries = by_id.entries@;
    let on_chain_id = AA2dTransactionId::new(*seq_id, on_chain_nonce);
    let mut promoted: Vec<PendingTransaction> = Vec::new();
    let mut reached: bool = false;
    let mut next_nonce: u64 = on_chain_nonce;
    let mut i: usize = by_id.lower_bound(&on_chain_id);
    let ghost first = i as int;
    let ghost mut end = on_chain_nonce as int;
    while i < by_id.entries.len() && by_id.entries[i].0.seq_id == *seq_id && by_id.entries[i].0.nonce
        == next_nonce
        invariant
            is_run(entries, *seq_id, on_chain_nonce, first, i as int),
            before == entry_map(entries),
            by_id.wf(),
            on_chain_nonce <= nonce,
            by_id.entries@.len() == entries.len(),
            end == on_chain_nonce + (i - first),
            end <= u64::MAX + 1,
            next_nonce == (if end <= u64::MAX {
                end
            } else {
                u64::MAX as int
            }),
            forall|j: int|
                0 <= j < entries.len() ==> (#[trigger] entries[j]).0 == by_id.entries@[j].0,
            forall|j: int|
                0 <= j < entries.len() ==> #[trigger] by_id.entries@[j].1 == (if first <= j < i
                    && entries[j].0.nonce >= nonce {
                    entries[j].1.marked(true)
                } else {
                    entries[j].1
                }),
            reached == (nonce < end),
            promoted@ == queued_between(before, *seq_id, nonce + 1, end),
        decreases entries.len() - i,
    {
        proof {
            if end > u64::MAX {
                assert(entries[i - 1].0.ord() < entries[i as int].0.ord());
                assert(false);
            }
            lemma_entry_in_map(entries, i as int);
            assert(entries[i as int].0 == tx_id(*seq_id, end as u64));
        }
        let here: u64 = by_id.entries[i].0.nonce;
        if here == nonce {
            set_pending(by_id, i, true);
            reached = true;
        } else if here > nonce {
            let was_pending: bool = set_pending(by_id, i, true);
            if !was_pending {
                promoted.push(by_id.entries[i].1.inner.clone());
            }
        }
        next_nonce = here.saturating_add(1);
        i = i + 1;
        proof {
            end = end + 1;
        }
    }
    proof {
        lemma_run_stops(entries, *seq_id, on_chain_nonce, first, i as int);
        lemma_run_marked(entries, by_id.entries@, *seq_id, on_chain_nonce, nonce, first, i as int);
    }
    (reached, promoted)
}

/// The transactions of pending ones.
fn strip(txs: &Vec<PendingTransaction>) -> (r: Vec<Arc<ValidPoolTransaction>>)
    ensures
        r@ == bare(txs@),
{
    let mut r: Vec<Arc<ValidPoolTransaction>> = Vec::new();
    let mut i: usize = 0;
    while i < txs.len()
        invariant
            i <= txs@.len(),
            r@ == bare(txs@.take(i as int)),
        decreases txs@.len() - i,
    {
        r.push(share(&txs[i].transaction));
        i = i + 1;
        assert(r@ =~= bare(txs@.take(i as int)));
    }
    assert(txs@.take(i as int) =~= txs@);
    r
}

impl AA2dPool {
    /// Uses up the next submission number; the last one is followed by zero.
    fn next_id(&mut self) -> (r: u64)
        ensures
            r == old(self).submission_id,
            *final(self) == (AA2dPool { submission_id: final(self).submission_id, ..*old(self) }),
            final(self)@ == next_submission(old(self)@),
    {
        let id: u64 = self.submission_id;
        self.submission_id = id.wrapping_add(1);
        assert(self@ =~= next_submission(old(self)@));
        id
    }

    /// Returns how many transactions of a sender are on record.
    fn sender_count(&self, sender: &Address) -> (r: usize)
        requires
            self.txs_by_sender.wf(),
        ensures
            r == recorded(self.txs_by_sender@, *sender),
    {
        match self.txs_by_sender.get(sender) {
            Some(n) => *n,
            None => 0,
        }
    }

    /// Adds a transaction with an expiring nonce, which is pending at once.
    fn add_expiring_nonce_transaction(
        &mut self,
        transaction: Arc<ValidPoolTransaction>,
        base_fee: u64,
    ) -> (r: Result<AddedTransaction, PoolError>)
        requires
            old(self).wf(),
            transaction.transaction.spec_is_expiring_nonce(),
            !old(self)@.by_hash.contains_key(transaction.spec_hash()),
        ensures
            final(self).wf(),
            match refusal(old(self)@, transaction, 0, TempoHardfork::T1) {
                Some((kind, _)) => r is Err && r->Err_0.kind == kind && r->Err_0.hash
                    == transaction.spec_hash() && final(self)@ == old(self)@,
                None => r is Ok && answers(
                    old(self)@,
                    transaction,
                    0,
                    TempoHardfork::T1,
                    base_fee,
                    r->Ok_0,
                ) && final(self)@ == within_limits(
                    accepted(old(self)@, transaction, 0, TempoHardfork::T1, base_fee),
                ).0,
            },
    {
        let ghost before = self@;
        let tx_hash = *transaction.hash();
        let expiring_nonce_hash = match transaction.transaction.expiring_nonce_hash() {
            Some(hash) => hash,
            None => vstd::pervasive::unreached(),
        };
        if self.expiring_nonce_txs.contains_key(&expiring_nonce_hash) {
            return Err(PoolError::new(tx_hash, PoolErrorKind::AlreadyImported));
        }
        let sender = transaction.sender();
        let sender_count: usize = self.sender_count(&sender);
        if sender_count >= self.config.max_txs_per_sender {
            return Err(PoolError::new(tx_hash, PoolErrorKind::SpammerExceededCapacity(sender)));
        }
        proof {
            lemma_added_expiring_inv(before, transaction, expiring_nonce_hash, base_fee);
        }
        let pending = PendingTransaction {
            submission_id: self.next_id(),
            priority: priority(&transaction.transaction, base_fee),
            transaction: share(&transaction),
        };
        self.new_pending.push(pending.clone());
        self.expiring_nonce_txs.insert(expiring_nonce_hash, pending);
        match transaction.transaction.expiring_nonce_slot() {
            Some(slot) => {
                self.slot_to_expiring_nonce_hash.insert(slot, expiring_nonce_hash);
            },
            None => {},
        }
        self.by_hash.insert(tx_hash, share(&transaction));
        self.txs_by_sender.insert(sender, sender_count + 1);
        assert(self@ =~= added_expiring(before, transaction, expiring_nonce_hash, base_fee));
        let discarded = self.discard();
        Ok(
            AddedTransaction::Pending(
                AddedPendingTransaction {
                    transaction,
                    replaced: None,
                    promoted: Vec::new(),
                    discarded,
                },
            ),
        )
    }

    /// Adds a transaction.
    ///
    /// `on_chain_nonce` is the nonce of the sender, for the nonce key of the transaction, at the
    /// time of validation. From hardfork T1 on, a transaction with the largest nonce key has an
    /// expiring nonce; before, it is a transaction with a sequential nonce like any other.
    pub fn add_transaction(
        &mut self,
        transaction: Arc<ValidPoolTransaction>,
        on_chain_nonce: u64,
        hardfork: TempoHardfork,
        base_fee: u64,
    ) -> (r: Result<AddedTransaction, PoolError>)
        requires
            old(self).wf(),
            transaction.transaction.inner.aa is Some,
        ensures
            final(self).wf(),
            match refusal(old(self)@, transaction, on_chain_nonce, hardfork) {
                Some((kind, used)) => r is Err && r->Err_0.kind == kind && r->Err_0.hash
                    == transaction.spec_hash() && final(self)@ == (if used {
                    next_submission(old(self)@)
                } else {
                    old(self)@
                }),
                None => r is Ok && answers(
                    old(self)@,
                    transaction,
                    on_chain_nonce,
                    hardfork,
                    base_fee,
                    r->Ok_0,
                ) && final(self)@ == within_limits(
                    accepted(old(self)@, transaction, on_chain_nonce, hardfork, base_fee),
                ).0,
            },
            r is Ok ==> within_quotas(final(self)@),
            coherent(old(self)@) && agrees(old(self)@, transaction, on_chain_nonce, hardfork)
                ==> coherent(final(self)@),
    {
        let ghost before = self@;
        proof {
            if coherent(before) && agrees(before, transaction, on_chain_nonce, hardfork) {
                law_added_coherent(before, transaction, on_chain_nonce, hardfork, base_fee);
            }
            if refusal(before, transaction, on_chain_nonce, hardfork) is None {
                lemma_accepted_inv(before, transaction, on_chain_nonce, hardfork, base_fee);
                law_within_limits(
                    accepted(before, transaction, on_chain_nonce, hardfork, base_fee),
                );
            }
        }
        let tx_hash = *transaction.hash();
        if self.contains(&tx_hash) {
            return Err(PoolError::new(tx_hash, PoolErrorKind::AlreadyImported));
        }
        if hardfork.is_t1() && transaction.transaction.is_expiring_nonce() {
            return self.add_expiring_nonce_transaction(transaction, base_fee);
        }
        let tx_id = match transaction.transaction.aa_transaction_id() {
            Some(id) => id,
            None => vstd::pervasive::unreached(),
        };
        if transaction.nonce() < on_chain_nonce {
            return Err(
                PoolError::new(
                    tx_hash,
                    PoolErrorKind::InvalidTransaction(
                        InvalidTransactionError::NonceNotConsistent {
                            tx: transaction.nonce(),
                            state: on_chain_nonce,
                        },
                    ),
                ),
            );
        }
        let inner = PendingTransaction {
            submission_id: self.next_id(),
            priority: priority(&transaction.transaction, base_fee),
            transaction: share(&transaction),
        };
        proof {
            lemma_next_submission_inv(before);
        }
        let sender = transaction.sender();
        let mut replaced: Option<Arc<ValidPoolTransaction>> = None;
        match self.by_id.get(&tx_id) {
            Some(existing) => {
                if is_underpriced(
                    &existing.inner.transaction.transaction,
                    &transaction.transaction,
                    &self.config.price_bump_config,
                ) {
                    return Err(PoolError::new(tx_hash, PoolErrorKind::ReplacementUnderpriced));
                }
                replaced = Some(share(&existing.inner.transaction));
            },
            None => {
                let sender_count: usize = self.sender_count(&sender);
                if sender_count >= self.config.max_txs_per_sender {
                    return Err(
                        PoolError::new(tx_hash, PoolErrorKind::SpammerExceededCapacity(sender)),
                    );
                }
                self.txs_by_sender.insert(sender, sender_count + 1);
            },
        }
        proof {
            lemma_added_inv(before, transaction, tx_id, on_chain_nonce, base_fee);
        }
        self.by_id.insert(tx_id, AA2dInternalTransaction { inner: inner.clone(), is_pending: false });
        if transaction.transaction.is_aa_2d() {
            match transaction.transaction.nonce_key_slot() {
                Some(slot) => {
                    self.slot_to_seq_id.insert(slot, tx_id.seq_id);
                },
                None => {},
            }
        }
        match &replaced {
            Some(old_tx) => {
                self.by_hash.remove(old_tx.hash());
            },
            None => {},
        }
        self.by_hash.insert(tx_hash, share(&transaction));
        assert(self.by_id@ == placed(before, transaction, tx_id, base_fee));
        let (pending, mut promoted) = mark_run(
            &mut self.by_id,
            &tx_id.seq_id,
            on_chain_nonce,
            tx_id.nonce,
        );
        if pending {
            if tx_id.nonce == on_chain_nonce {
                self.independent_transactions.insert(tx_id.seq_id, inner.clone());
            }
            let promoted_txs = strip(&promoted);
            self.new_pending.push(inner);
            self.new_pending.append(&mut promoted);
            assert(self@ =~= added(before, transaction, tx_id, on_chain_nonce, base_fee));
            let discarded = self.discard();
            return Ok(
                AddedTransaction::Pending(
                    AddedPendingTransaction {
                        transaction,
                        replaced,
                        promoted: promoted_txs,
                        discarded,
                    },
                ),
            );
        }
        assert(self@ =~= added(before, transaction, tx_id, on_chain_nonce, base_fee));
        self.discard();
        Ok(
            AddedTransaction::Parked {
                transaction,
                replaced,
                subpool: SubPool::Queued,
                queued_reason: Some(QueuedReason::NonceGap),
            },
        )
    }
}

/// Using up a submission number keeps the invariant.
pub proof fn lemma_next_submission_inv(s: PoolState)
    requires
        inv(s),
    ensures
        inv(next_submission(s)),
{
    reveal(inv);
    lemma_marks_keep_inv(s, next_submission(s));
}

} // verus!
