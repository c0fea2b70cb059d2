//! The pool for transactions with two-dimensional nonces.
use crate::coherence::{coherent, lemma_coherent_same};
use crate::counting::{
    count, lemma_count_bound, lemma_count_insert, lemma_count_zero, lemma_take_step,
};
use crate::ids::{tx_id, AA2dTransactionId, AASequenceId};
use crate::ordered::{
    entry_map, lemma_entry_in_map, lemma_entry_map_len, lemma_key_has_entry, OrdKey, SortedMap,
};
use crate::pending::{
    share, PendingTransaction, PriceBumpConfig, SubPoolLimit, DEFAULT_PRICE_BUMP,
    REPLACE_BLOB_PRICE_BUMP, SUBPOOL_MAX_SIZE_DEFAULT, SUBPOOL_MAX_TXS_DEFAULT,
};
use crate::pool_state::{
    held_by_id, in_use, inv, lemma_hash_has_one_expiring, lemma_hash_has_one_id,
    lemma_marks_keep_inv, lemma_without_expiring_inv, lemma_without_id_inv, one_less, pending_count,
    queued_count, with_pending, without_expiring, without_id, without_independent,
    AA2dInternalTransaction, AA2dPoolConfig, PoolState,
};
use crate::primitives::{Address, TxHash, B256, U256};
use crate::transaction::ValidPoolTransaction;
use std::sync::Arc;
use vstd::prelude::*;

verus! {

/// Default maximum number of transactions per sender.
pub const DEFAULT_MAX_TXS_PER_SENDER: usize = 16;

impl Default for AA2dPoolConfig {
    fn default() -> (r: Self)
        ensures
            is_default_config(r),
    {
        AA2dPoolConfig {
            price_bump_config: PriceBumpConfig::default(),
            pending_limit: SubPoolLimit::default(),
            queued_limit: SubPoolLimit::default(),
            max_txs_per_sender: DEFAULT_MAX_TXS_PER_SENDER,
        }
    }
}

/// A sub-pool that keeps track of transactions with two-dimensional nonces.
///
/// A transaction is pending if it has no nonce gap for its nonce key, and queued if it has one.
/// The pool relies on state changes to learn the nonces on chain.
#[derive(Debug)]
pub struct AA2dPool {
    /// The number that the next transaction is submitted under.
    pub submission_id: u64,
    /// Independent, pending, executable transactions, one per sequence.
    pub independent_transactions: SortedMap<AASequenceId, PendingTransaction>,
    /// All transactions with sequential nonces, by their unique identifier.
    pub by_id: SortedMap<AA2dTransactionId, AA2dInternalTransaction>,
    /// All transactions by hash.
    pub by_hash: SortedMap<TxHash, Arc<ValidPoolTransaction>>,
    /// Expiring nonce transactions by expiring nonce hash, always pending.
    pub expiring_nonce_txs: SortedMap<B256, PendingTransaction>,
    /// The expiring nonce hash of the slot that marks it as seen.
    pub slot_to_expiring_nonce_hash: SortedMap<U256, B256>,
    /// The sequence of a nonce slot.
    pub slot_to_seq_id: SortedMap<U256, AASequenceId>,
    /// The settings.
    pub config: AA2dPoolConfig,
    /// The number of transactions of each sender that has any.
    pub txs_by_sender: SortedMap<Address, usize>,
    /// Transactions that became pending on arrival, for iterators that are already under way.
    pub new_pending: Vec<PendingTransaction>,
}

impl View for AA2dPool {
    type V = PoolState;

    open spec fn view(&self) -> PoolState {
        PoolState {
            submission_id: self.submission_id,
            independent: self.independent_transactions@,
            by_id: self.by_id@,
            by_hash: self.by_hash@,
            expiring: self.expiring_nonce_txs@,
            expiring_slots: self.slot_to_expiring_nonce_hash@,
            sequence_slots: self.slot_to_seq_id@,
            senders: self.txs_by_sender@,
            new_pending: self.new_pending@,
            config: self.config,
        }
    }
}

/// The pool holds as many hashes as transactions.
pub proof fn lemma_hashes_total(s: PoolState)
    requires
        inv(s),
        s.by_hash.dom().finite(),
    ensures
        s.by_hash.dom().len() == s.by_id.dom().len() + s.expiring.dom().len(),
{
    reveal(inv);
    let f = |id: AA2dTransactionId| s.by_id[id].inner.transaction.spec_hash();
    let g = |h: B256| s.expiring[h].transaction.spec_hash();
    let a = s.by_id.dom().map(f);
    let b = s.expiring.dom().map(g);
    s.by_id.dom().lemma_map_finite(f);
    s.expiring.dom().lemma_map_finite(g);
    assert(vstd::relations::injective_on(f, s.by_id.dom())) by {
        assert forall|x: AA2dTransactionId, y: AA2dTransactionId|
            s.by_id.dom().contains(x) && s.by_id.dom().contains(y) && #[trigger] f(x)
                == #[trigger] f(y) implies x == y by {
            assert(s.by_id.contains_key(x) && s.by_id.contains_key(y));
            lemma_hash_has_one_id(s, x, y);
        }
    }
    assert(vstd::relations::injective_on(g, s.expiring.dom())) by {
        assert forall|x: B256, y: B256|
            s.expiring.dom().contains(x) && s.expiring.dom().contains(y) && #[trigger] g(x)
                == #[trigger] g(y) implies x == y by {
            assert(s.expiring.contains_key(x) && s.expiring.contains_key(y));
            lemma_hash_has_one_expiring(s, x, y);
        }
    }
    vstd::set_lib::lemma_map_size(s.by_id.dom(), a, f);
    vstd::set_lib::lemma_map_size(s.expiring.dom(), b, g);
    assert(a.disjoint(b)) by {
        assert forall|h: TxHash| !(a.contains(h) && b.contains(h)) by {
            if a.contains(h) && b.contains(h) {
                let x = choose|x: AA2dTransactionId| s.by_id.dom().contains(x) && f(x) == h;
                let y = choose|y: B256| s.expiring.dom().contains(y) && g(y) == h;
                assert(s.by_id.contains_key(x) && s.expiring.contains_key(y));
            }
        }
    }
    vstd::set_lib::lemma_set_disjoint_lens(a, b);
    assert(s.by_hash.dom() =~= a + b) by {
        assert forall|h: TxHash| s.by_hash.dom().contains(h) <==> #[trigger] (a + b).contains(
            h,
        ) by {
            if s.by_hash.contains_key(h) {
                let tx = s.by_hash[h];
                if held_by_id(s, tx) {
                    let id = tx.transaction.spec_id()->0;
                    assert(s.by_id.dom().contains(id) && f(id) == h);
                } else {
                    let e = tx.transaction.spec_expiring_nonce_hash()->0;
                    assert(s.expiring.dom().contains(e) && g(e) == h);
                }
            }
            if a.contains(h) {
                let x = choose|x: AA2dTransactionId| s.by_id.dom().contains(x) && f(x) == h;
                assert(s.by_id.contains_key(x));
            }
            if b.contains(h) {
                let y = choose|y: B256| s.expiring.dom().contains(y) && g(y) == h;
                assert(s.expiring.contains_key(y));
            }
        }
    }
}

/// Marks entry `i` as pending or queued, returning its mark before.
pub(crate) fn set_pending(
    by_id: &mut SortedMap<AA2dTransactionId, AA2dInternalTransaction>,
    i: usize,
    pending: bool,
) -> (was: bool)
    requires
        old(by_id).wf(),
        i < old(by_id).entries@.len(),
    ensures
        final(by_id).wf(),
        was == old(by_id).entries@[i as int].1.is_pending,
        final(by_id).entries@ == old(by_id).entries@.update(
            i as int,
            (
                old(by_id).entries@[i as int].0,
                old(by_id).entries@[i as int].1.marked(pending),
            ),
        ),
{
    let was: bool = by_id.entries[i].1.is_pending;
    let inner = by_id.entries[i].1.inner.clone();
    by_id.set_value(i, AA2dInternalTransaction { inner, is_pending: pending });
    was
}

/// The settings of a pool that none were given for.
pub open spec fn is_default_config(config: AA2dPoolConfig) -> bool {
    &&& config.price_bump_config.default_price_bump == DEFAULT_PRICE_BUMP
    &&& config.price_bump_config.replace_blob_tx_price_bump == REPLACE_BLOB_PRICE_BUMP
    &&& config.pending_limit.max_txs == SUBPOOL_MAX_TXS_DEFAULT
    &&& config.pending_limit.max_size == SUBPOOL_MAX_SIZE_DEFAULT
    &&& config.queued_limit.max_txs == SUBPOOL_MAX_TXS_DEFAULT
    &&& config.queued_limit.max_size == SUBPOOL_MAX_SIZE_DEFAULT
    &&& config.max_txs_per_sender == DEFAULT_MAX_TXS_PER_SENDER
}

impl Default for AA2dPool {
    /// Creates an empty pool with the default settings.
    fn default() -> (r: Self)
        ensures
            r.wf(),
            r@ == empty_pool(r.config),
            is_default_config(r.config),
            coherent(r@),
    {
        AA2dPool::new(AA2dPoolConfig::default())
    }
}

impl AA2dPool {
    /// The maps are in order and what they hold agrees.
    pub open spec fn wf(&self) -> bool {
        &&& self.independent_transactions.wf()
        &&& self.by_id.wf()
        &&& self.by_hash.wf()
        &&& self.expiring_nonce_txs.wf()
        &&& self.slot_to_expiring_nonce_hash.wf()
        &&& self.slot_to_seq_id.wf()
        &&& self.txs_by_sender.wf()
        &&& inv(self@)
    }

    /// Creates an empty pool with the given settings.
    pub fn new(config: AA2dPoolConfig) -> (r: Self)
        ensures
            r.wf(),
            r@ == empty_pool(config),
            coherent(r@),
    {
        let r = AA2dPool {
            submission_id: 0,
            independent_transactions: SortedMap::new(),
            by_id: SortedMap::new(),
            by_hash: SortedMap::new(),
            expiring_nonce_txs: SortedMap::new(),
            slot_to_expiring_nonce_hash: SortedMap::new(),
            slot_to_seq_id: SortedMap::new(),
            config,
            txs_by_sender: SortedMap::new(),
            new_pending: Vec::new(),
        };
        proof {
            lemma_empty_inv(config);
            assert(r@ =~= empty_pool(config));
        }
        r
    }

    /// Returns how many transactions with sequential nonces are pending and how many are queued.
    pub(crate) fn count_marks(&self) -> (r: (usize, usize))
        requires
            self.by_id.wf(),
        ensures
            r.0 == count(self.by_id@, with_pending(true)),
            r.1 == count(self.by_id@, with_pending(false)),
    {
        let mut pending: usize = 0;
        let mut queued: usize = 0;
        let mut i: usize = 0;
        assert(self.by_id.entries@.take(0) =~= Seq::empty());
        assert(entry_map(self.by_id.entries@.take(0)) =~= Map::empty());
        proof {
            let none = Map::<AA2dTransactionId, AA2dInternalTransaction>::empty();
            lemma_count_zero(none, with_pending(true));
            lemma_count_zero(none, with_pending(false));
        }
        while i < self.by_id.entries.len()
            invariant
                self.by_id.wf(),
                i <= self.by_id.entries@.len(),
                pending == count(
                    entry_map(self.by_id.entries@.take(i as int)),
                    with_pending(true),
                ),
                queued == count(
                    entry_map(self.by_id.entries@.take(i as int)),
                    with_pending(false),
                ),
                pending <= i,
                queued <= i,
            decreases self.by_id.entries@.len() - i,
        {
            proof {
                lemma_take_step(self.by_id.entries@, i as int);
                let m = entry_map(self.by_id.entries@.take(i as int));
                let e = self.by_id.entries@[i as int];
                lemma_count_insert(m, with_pending(true), e.0, e.1);
                lemma_count_insert(m, with_pending(false), e.0, e.1);
            }
            if self.by_id.entries[i].1.is_pending() {
                pending = pending + 1;
            } else {
                queued = queued + 1;
            }
            i = i + 1;
        }
        assert(self.by_id.entries@.take(i as int) =~= self.by_id.entries@);
        (pending, queued)
    }

    /// Returns how many pending and queued transactions are in the pool.
    pub fn pending_and_queued_txn_count(&self) -> (r: (usize, usize))
        requires
            self.wf(),
        ensures
            r.0 == pending_count(self@),
            r.1 == queued_count(self@),
    {
        let (pending, queued) = self.count_marks();
        proof {
            lemma_entry_map_len(self.by_hash.entries@);
            lemma_entry_map_len(self.by_id.entries@);
            lemma_entry_map_len(self.expiring_nonce_txs.entries@);
            lemma_hashes_total(self@);
            lemma_count_bound(self.by_id@, with_pending(true));
            assert(self.by_hash.entries.len() == self.by_hash.entries@.len());
        }
        let expiring: usize = self.expiring_nonce_txs.len();
        (pending + expiring, queued)
    }

    /// Hands out the transactions that became pending on arrival since the last call.
    pub fn take_new_pending(&mut self) -> (r: Vec<PendingTransaction>)
        requires
            old(self).wf(),
        ensures
            final(self).wf(),
            r@ == old(self)@.new_pending,
            final(self)@ == (PoolState { new_pending: Seq::empty(), ..old(self)@ }),
            coherent(old(self)@) ==> coherent(final(self)@),
    {
        let mut taken: Vec<PendingTransaction> = Vec::new();
        taken.append(&mut self.new_pending);
        proof {
            assert(self@ =~= (PoolState { new_pending: Seq::empty(), ..old(self)@ }));
            reveal(inv);
            lemma_marks_keep_inv(old(self)@, self@);
            assert(taken@ =~= old(self)@.new_pending);
            if coherent(old(self)@) {
                lemma_coherent_same(old(self)@, self@);
            }
        }
        taken
    }

    /// Returns `true` if the transaction with the given hash is in this pool.
    pub fn contains(&self, tx_hash: &TxHash) -> (r: bool)
        requires
            self.wf(),
        ensures
            r == self@.by_hash.contains_key(*tx_hash),
    {
        self.by_hash.contains_key(tx_hash)
    }

    /// Returns the transaction by hash.
    pub fn get(&self, tx_hash: &TxHash) -> (r: Option<Arc<ValidPoolTransaction>>)
        requires
            self.wf(),
        ensures
            match r {
                Some(tx) => self@.by_hash.contains_key(*tx_hash) && self@.by_hash[*tx_hash] == tx,
                None => !self@.by_hash.contains_key(*tx_hash),
            },
    {
        match self.by_hash.get(tx_hash) {
            Some(tx) => Some(share(tx)),
            None => None,
        }
    }

    /// Returns `true` if the sequence has a transaction.
    fn sequence_in_use(&self, seq_id: &AASequenceId) -> (r: bool)
        requires
            self.by_id.wf(),
        ensures
            r == in_use(self.by_id@, *seq_id),
    {
        let first = AA2dTransactionId::new(*seq_id, 0);
        let i: usize = self.by_id.lower_bound(&first);
        if i < self.by_id.entries.len() && self.by_id.entries[i].0.seq_id == *seq_id {
            proof {
                lemma_entry_in_map(self.by_id.entries@, i as int);
                let id = self.by_id.entries@[i as int].0;
                assert(id == tx_id(*seq_id, id.nonce));
            }
            true
        } else {
            proof {
                if in_use(self.by_id@, *seq_id) {
                    let n = choose|n: u64| self.by_id@.contains_key(#[trigger] tx_id(*seq_id, n));
                    let j = lemma_key_has_entry(self.by_id.entries@, tx_id(*seq_id, n));
                    if i < j {
                        let x = self.by_id.entries@[i as int].0;
                        let y = self.by_id.entries@[j].0;
                        assert(first.ord() <= x.ord() < y.ord());
                        assert(x.seq_id.ord() == seq_id.ord());
                        x.seq_id.ord_injective(*seq_id);
                    }
                }
            }
            false
        }
    }

    /// Decrements the transaction count of a sender, forgetting the sender at zero.
    fn decrement_sender_count(&mut self, sender: Address)
        requires
            old(self).txs_by_sender.wf(),
            old(self).txs_by_sender@.contains_key(sender) ==> old(self).txs_by_sender@[sender] > 0,
        ensures
            final(self).txs_by_sender.wf(),
            final(self).txs_by_sender@ == one_less(old(self).txs_by_sender@, sender),
            *final(self) == (AA2dPool { txs_by_sender: final(self).txs_by_sender, ..*old(self) }),
    {
        match self.txs_by_sender.get(&sender) {
            Some(n) => {
                let n: usize = *n;
                if n == 1 {
                    self.txs_by_sender.remove(&sender);
                } else {
                    self.txs_by_sender.insert(sender, n - 1);
                }
            },
            None => {},
        }
    }

    /// Removes the independent transaction if it matches the given identifier.
    fn remove_independent(&mut self, id: &AA2dTransactionId)
        requires
            old(self).independent_transactions.wf(),
        ensures
            final(self).independent_transactions.wf(),
            final(self).independent_transactions@ == without_independent(
                old(self).independent_transactions@,
                *id,
            ),
            *final(self) == (AA2dPool {
                independent_transactions: final(self).independent_transactions,
                ..*old(self)
            }),
    {
        let matches: bool = match self.independent_transactions.get(&id.seq_id) {
            Some(tx) => tx.transaction.nonce() == id.nonce,
            None => false,
        };
        if matches {
            self.independent_transactions.remove(&id.seq_id);
        }
    }

    /// Removes the transaction with the given identifier from all sets.
    ///
    /// This does not shift the independent transaction forward or change the pending mark of any
    /// other transaction.
    pub(crate) fn remove_transaction_by_id(&mut self, id: &AA2dTransactionId) -> (r: Option<
        Arc<ValidPoolTransaction>,
    >)
        requires
            old(self).wf(),
        ensures
            final(self).wf(),
            final(self)@ == without_id(old(self)@, *id),
            match r {
                Some(tx) => old(self)@.by_id.contains_key(*id)
                    && old(self)@.by_id[*id].inner.transaction == tx,
                None => !old(self)@.by_id.contains_key(*id),
            },
    {
        let ghost before = self@;
        match self.by_id.remove(id) {
            Some(entry) => {
                let tx = entry.inner.transaction;
                proof {
                    assert(before.by_id[*id].inner.transaction == tx);
                    lemma_without_id_inv(before, *id);
                    reveal(inv);
                    if before.senders.contains_key(tx.transaction.inner.sender) {
                        assert(before.senders[tx.transaction.inner.sender] > 0);
                    }
                }
                if !self.sequence_in_use(&id.seq_id) {
                    match tx.transaction.nonce_key_slot() {
                        Some(slot) => {
                            self.slot_to_seq_id.remove(&slot);
                        },
                        None => {},
                    }
                }
                self.remove_independent(id);
                self.by_hash.remove(tx.hash());
                self.decrement_sender_count(tx.sender());
                assert(self@ =~= without_id(before, *id));
                Some(tx)
            },
            None => {
                assert(self@ =~= before);
                None
            },
        }
    }

    /// Removes an expiring nonce transaction by its expiring nonce hash from all sets.
    pub(crate) fn remove_expiring_nonce_tx(&mut self, expiring_hash: &B256) -> (r: Option<
        Arc<ValidPoolTransaction>,
    >)
        requires
            old(self).wf(),
        ensures
            final(self).wf(),
            final(self)@ == without_expiring(old(self)@, *expiring_hash),
            match r {
                Some(tx) => old(self)@.expiring.contains_key(*expiring_hash)
                    && old(self)@.expiring[*expiring_hash].transaction == tx,
                None => !old(self)@.expiring.contains_key(*expiring_hash),
            },
    {
        let ghost before = self@;
        match self.expiring_nonce_txs.remove(expiring_hash) {
            Some(pending) => {
                let tx = pending.transaction;
                proof {
                    lemma_without_expiring_inv(before, *expiring_hash);
                    reveal(inv);
                    if before.senders.contains_key(tx.transaction.inner.sender) {
                        assert(before.senders[tx.transaction.inner.sender] > 0);
                    }
                }
                self.by_hash.remove(tx.hash());
                match tx.transaction.expiring_nonce_slot() {
                    Some(slot) => {
                        self.slot_to_expiring_nonce_hash.remove(&slot);
                    },
                    None => {},
                }
                self.decrement_sender_count(tx.sender());
                assert(self@ =~= without_expiring(before, *expiring_hash));
                Some(tx)
            },
            None => {
                assert(self@ =~= before);
                None
            },
        }
    }
}

/// A pool that holds nothing.
pub open spec fn empty_pool(config: AA2dPoolConfig) -> PoolState {
    PoolState {
        submission_id: 0,
        independent: Map::empty(),
        by_id: Map::empty(),
        by_hash: Map::empty(),
        expiring: Map::empty(),
        expiring_slots: Map::empty(),
        sequence_slots: Map::empty(),
        senders: Map::empty(),
        new_pending: Seq::empty(),
        config,
    }
}

proof fn lemma_empty_inv(config: AA2dPoolConfig)
    ensures
        inv(empty_pool(config)),
{
    reveal(inv);
    let s = empty_pool(config);
    assert forall|a: Address| #[trigger]
        crate::pool_state::recorded(s.senders, a) == crate::pool_state::sender_total(s, a) by {
        lemma_count_zero(s.by_id, crate::pool_state::sent_by(a));
        lemma_count_zero(s.expiring, crate::pool_state::expiring_sent_by(a));
    }
}

/// A pool that was given no settings wants ten percent more for a replacement, a hundred for one with
/// blobs, holds ten thousand transactions of twenty mebibytes of each kind, and sixteen of a sender.
pub proof fn law_default_settings(config: AA2dPoolConfig)
    requires
        is_default_config(config),
    ensures
        config.price_bump_config.default_price_bump == 10,
        config.price_bump_config.replace_blob_tx_price_bump == 100,
        config.pending_limit.max_txs == 10_000,
        config.pending_limit.max_size == 20 * 1024 * 1024,
        config.queued_limit.max_txs == 10_000,
        config.queued_limit.max_size == 20 * 1024 * 1024,
        config.max_txs_per_sender == 16,
{
}

/// A new pool holds nothing, and counts its submissions from zero.
pub proof fn law_new_pool_is_empty(config: AA2dPoolConfig, hash: TxHash, sender: Address)
    ensures
        !empty_pool(config).by_hash.contains_key(hash),
        !empty_pool(config).senders.contains_key(sender),
        empty_pool(config).by_id.dom().len() == 0,
        empty_pool(config).expiring.dom().len() == 0,
        empty_pool(config).independent.dom().len() == 0,
        empty_pool(config).new_pending.len() == 0,
        empty_pool(config).submission_id == 0,
        empty_pool(config).config == config,
{
}

} // verus!
