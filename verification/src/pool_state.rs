//! The mathematical model of the pool for two-dimensional nonces: its state, what each operation
//! does to it, and the invariant that every operation keeps.
use crate::counting::{count, lemma_count_remove, lemma_count_same};
use crate::ids::{tx_id, AA2dTransactionId, AASequenceId};
use crate::pending::{PendingTransaction, PriceBumpConfig, SubPoolLimit};
use crate::primitives::{Address, TxHash, B256, U256};
use crate::transaction::ValidPoolTransaction;
use std::sync::Arc;
use vstd::prelude::*;

verus! {

/// Settings of the pool.
#[derive(Debug, Clone, Copy, PartialEq, Eq, Structural)]
pub struct AA2dPoolConfig {
    /// Price bump (in percent) for the underpriced check of replacements.
    pub price_bump_config: PriceBumpConfig,
    /// Maximum number of pending (executable) transactions.
    pub pending_limit: SubPoolLimit,
    /// Maximum number of queued (non-executable) transactions.
    pub queued_limit: SubPoolLimit,
    /// Maximum number of transactions per sender, so that no single sender takes up the pool.
    pub max_txs_per_sender: usize,
}

/// A transaction of the pool, and whether it is executable.
#[derive(Debug)]
pub struct AA2dInternalTransaction {
    /// The transaction with its priority, which stays the same while it is in the pool.
    pub inner: PendingTransaction,
    /// Whether this transaction is pending. If it is not, it is queued.
    pub is_pending: bool,
}

impl AA2dInternalTransaction {
    /// Returns whether this transaction is pending.
    pub fn is_pending(&self) -> (r: bool)
        ensures
            r == self.is_pending,
    {
        self.is_pending
    }

    /// The same transaction, pending or queued.
    pub open spec fn marked(self, pending: bool) -> AA2dInternalTransaction {
        AA2dInternalTransaction { inner: self.inner, is_pending: pending }
    }
}

/// What the pool holds.
#[verifier::ext_equal]
pub struct PoolState {
    /// The number that the next transaction is submitted under.
    pub submission_id: u64,
    /// The transaction of each sequence that is next in line.
    pub independent: Map<AASequenceId, PendingTransaction>,
    /// The transactions with sequential nonces.
    pub by_id: Map<AA2dTransactionId, AA2dInternalTransaction>,
    /// All transactions by hash.
    pub by_hash: Map<TxHash, Arc<ValidPoolTransaction>>,
    /// The transactions with expiring nonces, by expiring nonce hash.
    pub expiring: Map<B256, PendingTransaction>,
    /// The expiring nonce hash of a slot that marks it as seen.
    pub expiring_slots: Map<U256, B256>,
    /// The sequence of a nonce slot.
    pub sequence_slots: Map<U256, AASequenceId>,
    /// The number of transactions of each sender.
    pub senders: Map<Address, usize>,
    /// The transactions that became pending on arrival and were not yet handed on.
    pub new_pending: Seq<PendingTransaction>,
    /// The settings.
    pub config: AA2dPoolConfig,
}

/// The transactions with sequential nonces of a pool.
pub type ById = Map<AA2dTransactionId, AA2dInternalTransaction>;

// ---------------------------------------------------------------------------------------------
// Counting
// ---------------------------------------------------------------------------------------------

/// Picks the transactions of one sender.
pub open spec fn sent_by(sender: Address) -> spec_fn(
    AA2dTransactionId,
    AA2dInternalTransaction,
) -> bool {
    |id: AA2dTransactionId, tx: AA2dInternalTransaction| id.seq_id.address == sender
}

/// Picks the expiring nonce transactions of one sender.
pub open spec fn expiring_sent_by(sender: Address) -> spec_fn(B256, PendingTransaction) -> bool {
    |hash: B256, tx: PendingTransaction| tx.transaction.transaction.inner.sender == sender
}

/// Picks the pending, or the queued, transactions.
pub open spec fn with_pending(pending: bool) -> spec_fn(
    AA2dTransactionId,
    AA2dInternalTransaction,
) -> bool {
    |id: AA2dTransactionId, tx: AA2dInternalTransaction| tx.is_pending == pending
}

/// How many transactions a sender has in the pool.
pub open spec fn sender_total(s: PoolState, sender: Address) -> nat {
    count(s.by_id, sent_by(sender)) + count(s.expiring, expiring_sent_by(sender))
}

/// What the pool has on record as the number of transactions of a sender.
pub open spec fn recorded(senders: Map<Address, usize>, sender: Address) -> nat {
    if senders.contains_key(sender) {
        senders[sender] as nat
    } else {
        0
    }
}

/// How many transactions are pending. Expiring nonce transactions always are.
pub open spec fn pending_count(s: PoolState) -> nat {
    count(s.by_id, with_pending(true)) + s.expiring.dom().len()
}

/// How many transactions are queued.
pub open spec fn queued_count(s: PoolState) -> nat {
    count(s.by_id, with_pending(false))
}

// ---------------------------------------------------------------------------------------------
// The invariant
// ---------------------------------------------------------------------------------------------

/// The transaction is held among those with expiring nonces.
pub open spec fn held_as_expiring(s: PoolState, tx: ValidPoolTransaction) -> bool {
    &&& tx.transaction.spec_is_expiring_nonce()
    &&& s.expiring.contains_key(tx.transaction.spec_expiring_nonce_hash()->0)
    &&& s.expiring[tx.transaction.spec_expiring_nonce_hash()->0].transaction.spec_hash()
        == tx.spec_hash()
}

/// The transaction is held under its identifier.
pub open spec fn held_by_id(s: PoolState, tx: Arc<ValidPoolTransaction>) -> bool {
    &&& tx.transaction.spec_id() is Some
    &&& s.by_id.contains_key(tx.transaction.spec_id()->0)
    &&& s.by_id[tx.transaction.spec_id()->0].inner.transaction == tx
}

/// Each transaction with a sequential nonce stands under its own identifier and its own hash.
pub open spec fn ids_agree(s: PoolState) -> bool {
    forall|id: AA2dTransactionId| #[trigger]
        s.by_id.contains_key(id) ==> {
            let tx = s.by_id[id].inner.transaction;
            &&& tx.transaction.spec_id() == Some(id)
            &&& s.by_hash.contains_key(tx.spec_hash())
            &&& s.by_hash[tx.spec_hash()] == tx
        }
}

/// Each transaction with an expiring nonce stands under its own expiring nonce hash and hash.
pub open spec fn expiring_agree(s: PoolState) -> bool {
    forall|hash: B256| #[trigger]
        s.expiring.contains_key(hash) ==> {
            let tx = s.expiring[hash].transaction;
            &&& tx.transaction.spec_is_expiring_nonce()
            &&& tx.transaction.spec_expiring_nonce_hash() == Some(hash)
            &&& s.by_hash.contains_key(tx.spec_hash())
            &&& s.by_hash[tx.spec_hash()] == tx
        }
}

/// Each hash stands for a transaction of that hash that the pool holds.
pub open spec fn hashes_agree(s: PoolState) -> bool {
    forall|hash: TxHash| #[trigger]
        s.by_hash.contains_key(hash) ==> {
            &&& s.by_hash[hash].spec_hash() == hash
            &&& held_by_id(s, s.by_hash[hash]) || (held_as_expiring(s, *s.by_hash[hash])
                && s.expiring[s.by_hash[hash].transaction.spec_expiring_nonce_hash()->0].transaction
                == s.by_hash[hash])
        }
}

/// No transaction is held twice.
pub open spec fn held_once(s: PoolState) -> bool {
    forall|id: AA2dTransactionId, hash: B256|
        #![trigger s.by_id.contains_key(id), s.expiring.contains_key(hash)]
        s.by_id.contains_key(id) && s.expiring.contains_key(hash)
            ==> s.by_id[id].inner.transaction.spec_hash()
            != s.expiring[hash].transaction.spec_hash()
}

/// Each sender is on record with the number of its transactions, and no sender with zero.
pub open spec fn senders_agree(s: PoolState) -> bool {
    &&& forall|a: Address| #[trigger] recorded(s.senders, a) == sender_total(s, a)
    &&& forall|a: Address| #[trigger] s.senders.contains_key(a) ==> s.senders[a] > 0
}

/// Each transaction that is next in line belongs to its sequence.
pub open spec fn independent_agree(s: PoolState) -> bool {
    forall|seq: AASequenceId| #[trigger]
        s.independent.contains_key(seq) ==> {
            let id = s.independent[seq].transaction.transaction.spec_id();
            id is Some && id->0.seq_id == seq
        }
}

/// Each nonce slot on record is that of a sequence with a nonce key of its own.
pub open spec fn slots_agree(s: PoolState) -> bool {
    forall|slot: U256| #[trigger]
        s.sequence_slots.contains_key(slot) ==> s.sequence_slots[slot].nonce_key@ != 0
}

/// What always holds of the pool.
#[verifier::opaque]
pub open spec fn inv(s: PoolState) -> bool {
    &&& s.by_id.dom().finite()
    &&& s.expiring.dom().finite()
    &&& ids_agree(s)
    &&& expiring_agree(s)
    &&& hashes_agree(s)
    &&& held_once(s)
    &&& senders_agree(s)
    &&& independent_agree(s)
    &&& slots_agree(s)
}

// ---------------------------------------------------------------------------------------------
// Transitions
// ---------------------------------------------------------------------------------------------

/// The sequence has a transaction.
pub open spec fn in_use(by_id: ById, seq: AASequenceId) -> bool {
    exists|n: u64| by_id.contains_key(#[trigger] tx_id(seq, n))
}

/// The transactions next in line without the given one, if it is next in line.
pub open spec fn without_independent(
    independent: Map<AASequenceId, PendingTransaction>,
    id: AA2dTransactionId,
) -> Map<AASequenceId, PendingTransaction> {
    if independent.contains_key(id.seq_id)
        && independent[id.seq_id].transaction.transaction.inner.nonce == id.nonce {
        independent.remove(id.seq_id)
    } else {
        independent
    }
}

/// The sender counts with one transaction less of a sender.
pub open spec fn one_less(senders: Map<Address, usize>, sender: Address) -> Map<Address, usize> {
    if !senders.contains_key(sender) {
        senders
    } else if senders[sender] == 1 {
        senders.remove(sender)
    } else {
        senders.insert(sender, (senders[sender] - 1) as usize)
    }
}

/// The sender counts with one transaction more of a sender.
pub open spec fn one_more(senders: Map<Address, usize>, sender: Address) -> Map<Address, usize> {
    senders.insert(sender, (recorded(senders, sender) + 1) as usize)
}

/// A map without a key that may be missing.
pub open spec fn without_slot<V>(slots: Map<U256, V>, slot: Option<U256>) -> Map<U256, V> {
    match slot {
        Some(slot) => slots.remove(slot),
        None => slots,
    }
}

/// The pool without the transaction of an identifier. The slot of its sequence is forgotten with
/// the last transaction of the sequence.
pub open spec fn without_id(s: PoolState, id: AA2dTransactionId) -> PoolState {
    if s.by_id.contains_key(id) {
        let tx = s.by_id[id].inner.transaction;
        let by_id = s.by_id.remove(id);
        PoolState {
            by_id,
            independent: without_independent(s.independent, id),
            by_hash: s.by_hash.remove(tx.spec_hash()),
            sequence_slots: if in_use(by_id, id.seq_id) {
                s.sequence_slots
            } else {
                without_slot(s.sequence_slots, tx.transaction.spec_nonce_key_slot())
            },
            senders: one_less(s.senders, tx.transaction.inner.sender),
            ..s
        }
    } else {
        s
    }
}

/// The pool without the transaction of an expiring nonce hash.
pub open spec fn without_expiring(s: PoolState, hash: B256) -> PoolState {
    if s.expiring.contains_key(hash) {
        let tx = s.expiring[hash].transaction;
        PoolState {
            expiring: s.expiring.remove(hash),
            by_hash: s.by_hash.remove(tx.spec_hash()),
            expiring_slots: without_slot(
                s.expiring_slots,
                tx.transaction.spec_expiring_nonce_slot(),
            ),
            senders: one_less(s.senders, tx.transaction.inner.sender),
            ..s
        }
    } else {
        s
    }
}

/// The pool without a transaction that it holds.
pub open spec fn without_tx(s: PoolState, tx: ValidPoolTransaction) -> PoolState {
    if held_as_expiring(s, tx) {
        without_expiring(s, tx.transaction.spec_expiring_nonce_hash()->0)
    } else {
        without_id(s, tx.transaction.spec_id()->0)
    }
}

/// The transactions of a sequence above a nonce are queued; everything else is as before.
pub open spec fn queued_above(by_id: ById, seq: AASequenceId, nonce: u64) -> ById {
    Map::new(
        |id: AA2dTransactionId| by_id.contains_key(id),
        |id: AA2dTransactionId|
            if id.seq_id == seq && id.nonce > nonce {
                by_id[id].marked(false)
            } else {
                by_id[id]
            },
    )
}

/// The first nonce from `nonce` on that the sequence has no transaction for.
pub open spec fn run_end(by_id: ById, seq: AASequenceId, nonce: int) -> int
    decreases u64::MAX + 1 - nonce,
{
    if 0 <= nonce <= u64::MAX && by_id.contains_key(tx_id(seq, nonce as u64)) {
        run_end(by_id, seq, nonce + 1)
    } else {
        nonce
    }
}

/// The queued transactions of a sequence among the nonces from `lo` up to, not including, `hi`, in
/// ascending order.
pub open spec fn queued_between(by_id: ById, seq: AASequenceId, lo: int, hi: int) -> Seq<
    PendingTransaction,
>
    decreases hi - lo,
{
    if hi <= lo {
        Seq::empty()
    } else {
        let tx = by_id[tx_id(seq, (hi - 1) as u64)];
        let below = queued_between(by_id, seq, lo, hi - 1);
        if tx.is_pending {
            below
        } else {
            below.push(tx.inner)
        }
    }
}

/// The identifiers that a sequence has among the nonces from `lo` up to, not including, `hi`, in
/// ascending order.
pub open spec fn ids_between(by_id: ById, seq: AASequenceId, lo: int, hi: int) -> Seq<
    AA2dTransactionId,
>
    decreases hi - lo,
{
    if hi <= lo {
        Seq::empty()
    } else {
        let id = tx_id(seq, (hi - 1) as u64);
        let below = ids_between(by_id, seq, lo, hi - 1);
        if by_id.contains_key(id) {
            below.push(id)
        } else {
            below
        }
    }
}

/// The pool without the transactions of the given identifiers.
pub open spec fn without_ids(s: PoolState, ids: Seq<AA2dTransactionId>) -> PoolState
    decreases ids.len(),
{
    if ids.len() == 0 {
        s
    } else {
        without_id(without_ids(s, ids.drop_last()), ids.last())
    }
}

/// The transactions of the given identifiers.
pub open spec fn txs_of(by_id: ById, ids: Seq<AA2dTransactionId>) -> Seq<
    Arc<ValidPoolTransaction>,
> {
    ids.map_values(|id: AA2dTransactionId| by_id[id].inner.transaction)
}

/// The pool after each hash in turn was looked up and its transaction, if any, removed.
pub open spec fn without_hashes(s: PoolState, hashes: Seq<TxHash>) -> PoolState
    decreases hashes.len(),
{
    if hashes.len() == 0 {
        s
    } else {
        let t = without_hashes(s, hashes.drop_last());
        if t.by_hash.contains_key(hashes.last()) {
            without_tx(t, *t.by_hash[hashes.last()])
        } else {
            t
        }
    }
}

/// The transactions that looking up and removing each hash in turn finds.
pub open spec fn found_txs(s: PoolState, hashes: Seq<TxHash>) -> Seq<Arc<ValidPoolTransaction>>
    decreases hashes.len(),
{
    if hashes.len() == 0 {
        Seq::empty()
    } else {
        let t = without_hashes(s, hashes.drop_last());
        let found = found_txs(s, hashes.drop_last());
        if t.by_hash.contains_key(hashes.last()) {
            found.push(t.by_hash[hashes.last()])
        } else {
            found
        }
    }
}

/// The identifiers of the sequential transactions among those that looking up and removing each
/// hash in turn finds.
pub open spec fn found_ids(s: PoolState, hashes: Seq<TxHash>) -> Seq<AA2dTransactionId>
    decreases hashes.len(),
{
    if hashes.len() == 0 {
        Seq::empty()
    } else {
        let t = without_hashes(s, hashes.drop_last());
        let found = found_ids(s, hashes.drop_last());
        if t.by_hash.contains_key(hashes.last()) && !held_as_expiring(
            t,
            *t.by_hash[hashes.last()],
        ) {
            found.push(t.by_hash[hashes.last()].transaction.spec_id()->0)
        } else {
            found
        }
    }
}

/// One of the identifiers precedes the given one in its sequence.
pub open spec fn follows_any(id: AA2dTransactionId, ids: Seq<AA2dTransactionId>) -> bool {
    exists|j: int|
        0 <= j < ids.len() && (#[trigger] ids[j]).seq_id == id.seq_id && ids[j].nonce < id.nonce
}

/// Every transaction that follows one of the identifiers in its sequence is queued; everything
/// else is as before.
pub open spec fn queued_after(by_id: ById, ids: Seq<AA2dTransactionId>) -> ById {
    Map::new(
        |id: AA2dTransactionId| by_id.contains_key(id),
        |id: AA2dTransactionId|
            if follows_any(id, ids) {
                by_id[id].marked(false)
            } else {
                by_id[id]
            },
    )
}

/// The transactions of a sequence from a nonce on, up to the first gap after another nonce, are
/// pending; everything else is as before.
pub open spec fn pending_run(by_id: ById, seq: AASequenceId, from: int, to: int) -> ById {
    Map::new(
        |id: AA2dTransactionId| by_id.contains_key(id),
        |id: AA2dTransactionId|
            if id.seq_id == seq && from <= id.nonce < to {
                by_id[id].marked(true)
            } else {
                by_id[id]
            },
    )
}

/// The pool with the submission number used up.
pub open spec fn next_submission(s: PoolState) -> PoolState {
    PoolState {
        submission_id: if s.submission_id == u64::MAX {
            0
        } else {
            (s.submission_id + 1) as u64
        },
        ..s
    }
}

// ---------------------------------------------------------------------------------------------
// Lemmas on the transitions
// ---------------------------------------------------------------------------------------------

/// Same transactions under the same identifiers, only the pending marks may differ.
pub open spec fn same_txs(a: ById, b: ById) -> bool {
    &&& a.dom() == b.dom()
    &&& forall|id: AA2dTransactionId| #[trigger] a.contains_key(id) ==> a[id].inner == b[id].inner
}

/// Changing pending marks and who is next in line keeps the invariant.
pub proof fn lemma_marks_keep_inv(s: PoolState, t: PoolState)
    requires
        inv(s),
        same_txs(s.by_id, t.by_id),
        t.by_hash == s.by_hash,
        t.expiring == s.expiring,
        t.senders == s.senders,
        t.sequence_slots == s.sequence_slots,
        independent_agree(t),
    ensures
        inv(t),
{
    reveal(inv);
    assert forall|a: Address| #[trigger] recorded(t.senders, a) == sender_total(t, a) by {
        lemma_count_same(s.by_id, t.by_id, sent_by(a));
        assert(recorded(s.senders, a) == sender_total(s, a));
    }
    assert(ids_agree(t)) by {
        assert forall|id: AA2dTransactionId| #[trigger] t.by_id.contains_key(id) implies {
            let tx = t.by_id[id].inner.transaction;
            &&& tx.transaction.spec_id() == Some(id)
            &&& t.by_hash.contains_key(tx.spec_hash())
            &&& t.by_hash[tx.spec_hash()] == tx
        } by {
            assert(s.by_id.contains_key(id));
        }
    }
    assert(hashes_agree(t)) by {
        assert forall|hash: TxHash| #[trigger] t.by_hash.contains_key(hash) implies {
            &&& t.by_hash[hash].spec_hash() == hash
            &&& held_by_id(t, t.by_hash[hash]) || (held_as_expiring(t, *t.by_hash[hash])
                && t.expiring[t.by_hash[hash].transaction.spec_expiring_nonce_hash()->0].transaction
                == t.by_hash[hash])
        } by {
            assert(s.by_hash.contains_key(hash));
            if held_by_id(s, s.by_hash[hash]) {
                assert(s.by_id.contains_key(s.by_hash[hash].transaction.spec_id()->0));
            }
        }
    }
    assert(held_once(t)) by {
        assert forall|id: AA2dTransactionId, hash: B256|
            #![trigger t.by_id.contains_key(id), t.expiring.contains_key(hash)]
            t.by_id.contains_key(id) && t.expiring.contains_key(
                hash,
            ) implies t.by_id[id].inner.transaction.spec_hash()
            != t.expiring[hash].transaction.spec_hash() by {
            assert(s.by_id.contains_key(id) && s.expiring.contains_key(hash));
        }
    }
}

/// Changing pending marks keeps the invariant.
pub proof fn lemma_new_marks_keep_inv(s: PoolState, by_id: ById)
    requires
        inv(s),
        same_txs(s.by_id, by_id),
    ensures
        inv((PoolState { by_id, ..s })),
{
    reveal(inv);
    lemma_marks_keep_inv(s, (PoolState { by_id, ..s }));
}

/// Each transaction stands under its own hash.
pub proof fn lemma_own_hashes(s: PoolState)
    requires
        inv(s),
    ensures
        forall|hash: TxHash| #[trigger]
            s.by_hash.contains_key(hash) ==> s.by_hash[hash].spec_hash() == hash,
{
    reveal(inv);
}

/// Two identifiers of a pool never stand for transactions of one hash.
pub proof fn lemma_hash_has_one_id(s: PoolState, a: AA2dTransactionId, b: AA2dTransactionId)
    requires
        ids_agree(s),
        s.by_id.contains_key(a),
        s.by_id.contains_key(b),
        s.by_id[a].inner.transaction.spec_hash() == s.by_id[b].inner.transaction.spec_hash(),
    ensures
        a == b,
{
    assert(s.by_id[a].inner.transaction.transaction.spec_id() == Some(a));
    assert(s.by_id[b].inner.transaction.transaction.spec_id() == Some(b));
}

/// Two expiring nonce hashes of a pool never stand for transactions of one hash.
pub proof fn lemma_hash_has_one_expiring(s: PoolState, a: B256, b: B256)
    requires
        expiring_agree(s),
        s.expiring.contains_key(a),
        s.expiring.contains_key(b),
        s.expiring[a].transaction.spec_hash() == s.expiring[b].transaction.spec_hash(),
    ensures
        a == b,
{
    assert(s.expiring[a].transaction.transaction.spec_expiring_nonce_hash() == Some(a));
    assert(s.expiring[b].transaction.transaction.spec_expiring_nonce_hash() == Some(b));
}

proof fn lemma_one_less_agrees(
    senders: Map<Address, usize>,
    sender: Address,
    s: PoolState,
    t: PoolState,
)
    requires
        senders_agree(s),
        s.senders == senders,
        t.senders == one_less(senders, sender),
        sender_total(s, sender) > 0,
        forall|a: Address|
            #[trigger] sender_total(t, a) == sender_total(s, a) - (if a == sender {
                1int
            } else {
                0
            }),
    ensures
        senders_agree(t),
{
    assert(recorded(s.senders, sender) == sender_total(s, sender));
    assert forall|a: Address| #[trigger] recorded(t.senders, a) == sender_total(t, a) by {
        assert(recorded(s.senders, a) == sender_total(s, a));
    }
    assert forall|a: Address| #[trigger] t.senders.contains_key(a) implies t.senders[a] > 0 by {
        assert(s.senders.contains_key(a));
    }
}

/// Removing a transaction by its identifier keeps the invariant.
pub proof fn lemma_without_id_inv(s: PoolState, id: AA2dTransactionId)
    requires
        inv(s),
    ensures
        inv(without_id(s, id)),
{
    reveal(inv);
    if s.by_id.contains_key(id) {
        let t = without_id(s, id);
        let tx = s.by_id[id].inner.transaction;
        let sender = tx.transaction.inner.sender;
        assert(tx.transaction.spec_id() == Some(id));
        assert(id.seq_id.address == sender);
        assert forall|a: Address| #[trigger] sender_total(t, a) == sender_total(s, a) - (if a
            == sender {
            1int
        } else {
            0
        }) by {
            lemma_count_remove(s.by_id, sent_by(a), id);
        }
        lemma_count_remove(s.by_id, sent_by(sender), id);
        lemma_one_less_agrees(s.senders, sender, s, t);
        assert(ids_agree(t)) by {
            assert forall|x: AA2dTransactionId| #[trigger] t.by_id.contains_key(x) implies {
                let tx = t.by_id[x].inner.transaction;
                &&& tx.transaction.spec_id() == Some(x)
                &&& t.by_hash.contains_key(tx.spec_hash())
                &&& t.by_hash[tx.spec_hash()] == tx
            } by {
                assert(s.by_id.contains_key(x));
                if t.by_id[x].inner.transaction.spec_hash() == tx.spec_hash() {
                    lemma_hash_has_one_id(s, x, id);
                }
            }
        }
        assert(expiring_agree(t)) by {
            assert forall|h: B256| #[trigger] t.expiring.contains_key(h) implies {
                let tx = t.expiring[h].transaction;
                &&& tx.transaction.spec_is_expiring_nonce()
                &&& tx.transaction.spec_expiring_nonce_hash() == Some(h)
                &&& t.by_hash.contains_key(tx.spec_hash())
                &&& t.by_hash[tx.spec_hash()] == tx
            } by {
                assert(s.expiring.contains_key(h) && s.by_id.contains_key(id));
            }
        }
        assert(hashes_agree(t)) by {
            assert forall|h: TxHash| #[trigger] t.by_hash.contains_key(h) implies {
                &&& t.by_hash[h].spec_hash() == h
                &&& held_by_id(t, t.by_hash[h]) || (held_as_expiring(t, *t.by_hash[h])
                    && t.expiring[t.by_hash[h].transaction.spec_expiring_nonce_hash()->0].transaction
                    == t.by_hash[h])
            } by {
                assert(s.by_hash.contains_key(h));
            }
        }
        assert(held_once(t)) by {
            assert forall|x: AA2dTransactionId, h: B256|
                #![trigger t.by_id.contains_key(x), t.expiring.contains_key(h)]
                t.by_id.contains_key(x) && t.expiring.contains_key(
                    h,
                ) implies t.by_id[x].inner.transaction.spec_hash()
                != t.expiring[h].transaction.spec_hash() by {
                assert(s.by_id.contains_key(x) && s.expiring.contains_key(h));
            }
        }
        assert(independent_agree(t)) by {
            assert forall|q: AASequenceId| #[trigger] t.independent.contains_key(q) implies {
                let id = t.independent[q].transaction.transaction.spec_id();
                id is Some && id->0.seq_id == q
            } by {
                assert(s.independent.contains_key(q));
            }
        }
    }
}

/// Removing a transaction by its expiring nonce hash keeps the invariant.
pub proof fn lemma_without_expiring_inv(s: PoolState, hash: B256)
    requires
        inv(s),
    ensures
        inv(without_expiring(s, hash)),
{
    reveal(inv);
    if s.expiring.contains_key(hash) {
        let t = without_expiring(s, hash);
        let tx = s.expiring[hash].transaction;
        let sender = tx.transaction.inner.sender;
        assert forall|a: Address| #[trigger] sender_total(t, a) == sender_total(s, a) - (if a
            == sender {
            1int
        } else {
            0
        }) by {
            lemma_count_remove(s.expiring, expiring_sent_by(a), hash);
        }
        lemma_count_remove(s.expiring, expiring_sent_by(sender), hash);
        lemma_one_less_agrees(s.senders, sender, s, t);
        assert(ids_agree(t)) by {
            assert forall|x: AA2dTransactionId| #[trigger] t.by_id.contains_key(x) implies {
                let tx = t.by_id[x].inner.transaction;
                &&& tx.transaction.spec_id() == Some(x)
                &&& t.by_hash.contains_key(tx.spec_hash())
                &&& t.by_hash[tx.spec_hash()] == tx
            } by {
                assert(s.by_id.contains_key(x) && s.expiring.contains_key(hash));
            }
        }
        assert(expiring_agree(t)) by {
            assert forall|h: B256| #[trigger] t.expiring.contains_key(h) implies {
                let tx = t.expiring[h].transaction;
                &&& tx.transaction.spec_is_expiring_nonce()
                &&& tx.transaction.spec_expiring_nonce_hash() == Some(h)
                &&& t.by_hash.contains_key(tx.spec_hash())
                &&& t.by_hash[tx.spec_hash()] == tx
            } by {
                assert(s.expiring.contains_key(h));
                if t.expiring[h].transaction.spec_hash() == tx.spec_hash() {
                    lemma_hash_has_one_expiring(s, h, hash);
                }
            }
        }
        assert(hashes_agree(t)) by {
            assert forall|h: TxHash| #[trigger] t.by_hash.contains_key(h) implies {
                &&& t.by_hash[h].spec_hash() == h
                &&& held_by_id(t, t.by_hash[h]) || (held_as_expiring(t, *t.by_hash[h])
                    && t.expiring[t.by_hash[h].transaction.spec_expiring_nonce_hash()->0].transaction
                    == t.by_hash[h])
            } by {
                assert(s.by_hash.contains_key(h));
            }
        }
        assert(held_once(t)) by {
            assert forall|x: AA2dTransactionId, h: B256|
                #![trigger t.by_id.contains_key(x), t.expiring.contains_key(h)]
                t.by_id.contains_key(x) && t.expiring.contains_key(
                    h,
                ) implies t.by_id[x].inner.transaction.spec_hash()
                != t.expiring[h].transaction.spec_hash() by {
                assert(s.by_id.contains_key(x) && s.expiring.contains_key(h));
            }
        }
        assert(independent_agree(t)) by {
            assert forall|q: AASequenceId| #[trigger] t.independent.contains_key(q) implies {
                let id = t.independent[q].transaction.transaction.spec_id();
                id is Some && id->0.seq_id == q
            } by {
                assert(s.independent.contains_key(q));
            }
        }
    }
}

/// The first gap is at a nonce if every nonce before it has a transaction and it has none.
pub proof fn lemma_run_end(by_id: ById, seq: AASequenceId, from: int, to: int)
    requires
        0 <= from <= to <= u64::MAX + 1,
        forall|n: u64| from <= n < to ==> by_id.contains_key(#[trigger] tx_id(seq, n)),
        to <= u64::MAX ==> !by_id.contains_key(tx_id(seq, to as u64)),
    ensures
        run_end(by_id, seq, from) == to,
    decreases to - from,
{
    if from < to {
        assert(by_id.contains_key(tx_id(seq, from as u64)));
        lemma_run_end(by_id, seq, from + 1, to);
    }
}

/// Every nonce before the first gap has a transaction, and the gap has none.
pub proof fn lemma_run_end_spans(by_id: ById, seq: AASequenceId, from: int)
    requires
        0 <= from <= u64::MAX + 1,
    ensures
        from <= run_end(by_id, seq, from) <= u64::MAX + 1,
        forall|n: u64|
            from <= n < run_end(by_id, seq, from) ==> by_id.contains_key(#[trigger] tx_id(seq, n)),
        run_end(by_id, seq, from) <= u64::MAX ==> !by_id.contains_key(
            tx_id(seq, run_end(by_id, seq, from) as u64),
        ),
    decreases u64::MAX + 1 - from,
{
    if from <= u64::MAX && by_id.contains_key(tx_id(seq, from as u64)) {
        lemma_run_end_spans(by_id, seq, from + 1);
        assert forall|n: u64| from <= n < run_end(by_id, seq, from) implies by_id.contains_key(
            #[trigger] tx_id(seq, n),
        ) by {
            if n == from {
                assert(tx_id(seq, n) == tx_id(seq, from as u64));
            }
        }
    }
}

/// Nonces without a transaction contribute no identifier.
pub proof fn lemma_ids_between_skip(
    by_id: ById,
    seq: AASequenceId,
    lo: int,
    mid: int,
    hi: int,
)
    requires
        0 <= lo <= mid <= hi <= u64::MAX + 1,
        forall|n: u64| mid <= n < hi ==> !by_id.contains_key(#[trigger] tx_id(seq, n)),
    ensures
        ids_between(by_id, seq, lo, hi) == ids_between(by_id, seq, lo, mid),
    decreases hi - mid,
{
    if mid < hi {
        assert(!by_id.contains_key(tx_id(seq, (hi - 1) as u64)));
        lemma_ids_between_skip(by_id, seq, lo, mid, hi - 1);
    }
}

/// Removing any transaction keeps the invariant.
pub proof fn lemma_without_tx_inv(s: PoolState)
    requires
        inv(s),
    ensures
        forall|tx: ValidPoolTransaction| inv(#[trigger] without_tx(s, tx)),
{
    assert forall|tx: ValidPoolTransaction| inv(#[trigger] without_tx(s, tx)) by {
        lemma_without_expiring_inv(s, tx.transaction.spec_expiring_nonce_hash()->0);
        lemma_without_id_inv(s, tx.transaction.spec_id()->0);
    }
}

/// Removing a transaction that the pool holds forgets its hash and no other.
pub proof fn lemma_without_tx_hashes(s: PoolState, hash: TxHash)
    requires
        inv(s),
        s.by_hash.contains_key(hash),
    ensures
        without_tx(s, *s.by_hash[hash]).by_hash == s.by_hash.remove(hash),
        !held_as_expiring(s, *s.by_hash[hash]) ==> held_by_id(s, s.by_hash[hash]),
        held_as_expiring(s, *s.by_hash[hash])
            ==> s.expiring[s.by_hash[hash].transaction.spec_expiring_nonce_hash()->0].transaction
            == s.by_hash[hash],
{
    reveal(inv);
    assert(held_as_expiring(s, *s.by_hash[hash]) ==> s.expiring.contains_key(
        s.by_hash[hash].transaction.spec_expiring_nonce_hash()->0,
    ));
}

} // verus!
