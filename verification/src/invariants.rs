//! A check of what the pool promises about itself.
use crate::coherence::{
    after_adding, agrees, coherent, in_line, last_saw, law_added_coherent, law_last_seen_agrees,
    lemma_accepted_inv, lemma_coherent_same,
};
use crate::counting::{lemma_count_bound, lemma_count_split};
use crate::hardfork::TempoHardfork;
use crate::ids::{tx_id, AA2dTransactionId, AASequenceId};
use crate::insertion::{accepted, lemma_next_submission_inv, refusal};
use crate::ordered::{lemma_entry_in_map, lemma_entry_map_len, lemma_key_has_entry};
use crate::pool::{lemma_hashes_total, AA2dPool};
use crate::pool_laws::law_within_limits;
use crate::pool_state::{
    expiring_agree, hashes_agree, ids_agree, inv, pending_count, queued_count, senders_agree,
    with_pending, PoolState,
};
use crate::primitives::{TxHash, B256};
use crate::transaction::ValidPoolTransaction;
use std::sync::Arc;
use vstd::prelude::*;

verus! {

/// The transaction that is next in line for a sequence is a pending transaction of the pool and
/// of that sequence.
pub open spec fn next_is_held(s: PoolState, seq: AASequenceId) -> bool {
    let tx = s.independent[seq].transaction;
    match tx.transaction.spec_id() {
        Some(id) => {
            &&& s.by_id.contains_key(id)
            &&& id.seq_id == seq
            &&& s.by_id[id].is_pending
            &&& s.by_id[id].inner.transaction.spec_hash() == tx.spec_hash()
        },
        None => false,
    }
}

/// The transaction of a hash has that hash, and the pool holds it under its expiring nonce hash or
/// its identifier.
pub open spec fn hash_is_held(s: PoolState, hash: TxHash) -> bool {
    let tx = s.by_hash[hash];
    &&& tx.spec_hash() == hash
    &&& if tx.transaction.spec_is_expiring_nonce() {
        s.expiring.contains_key(tx.transaction.spec_expiring_nonce_hash()->0)
    } else {
        match tx.transaction.spec_id() {
            Some(id) => s.by_id.contains_key(id) && s.by_id[id].inner.transaction.spec_hash()
                == tx.spec_hash(),
            None => false,
        }
    }
}

/// The transaction of an identifier has that identifier, the pool knows its hash, and if it is
/// next in line it is pending.
pub open spec fn id_is_held(s: PoolState, id: AA2dTransactionId) -> bool {
    let tx = s.by_id[id].inner.transaction;
    &&& s.by_hash.contains_key(tx.spec_hash())
    &&& tx.transaction.spec_id() == Some(id)
    &&& s.independent.contains_key(id.seq_id) && s.independent[id.seq_id].transaction.spec_hash()
        == tx.spec_hash() ==> s.by_id[id].is_pending
}

/// The transaction of an expiring nonce hash has an expiring nonce and the pool knows its hash.
pub open spec fn expiring_is_held(s: PoolState, hash: B256) -> bool {
    let tx = s.expiring[hash].transaction;
    s.by_hash.contains_key(tx.spec_hash()) && tx.transaction.spec_is_expiring_nonce()
}

/// The counts are within the limits.
pub open spec fn within_quotas(s: PoolState) -> bool {
    &&& pending_count(s) <= s.config.pending_limit.max_txs
    &&& queued_count(s) <= s.config.queued_limit.max_txs
}

/// What the pool promises about itself.
pub open spec fn invariants(s: PoolState) -> bool {
    &&& s.independent.dom().len() <= s.by_id.dom().len()
    &&& s.by_id.dom().len() + s.expiring.dom().len() == s.by_hash.dom().len()
    &&& forall|seq: AASequenceId| #[trigger] s.independent.contains_key(seq) ==> next_is_held(s, seq)
    &&& forall|hash: TxHash| #[trigger] s.by_hash.contains_key(hash) ==> hash_is_held(s, hash)
    &&& forall|id: AA2dTransactionId| #[trigger] s.by_id.contains_key(id) ==> id_is_held(s, id)
    &&& forall|hash: B256| #[trigger] s.expiring.contains_key(hash) ==> expiring_is_held(s, hash)
    &&& pending_count(s) + queued_count(s) == s.by_id.dom().len() + s.expiring.dom().len()
    &&& within_quotas(s)
}

impl AA2dPool {
    /// The maps of the pool are in order.
    pub open spec fn maps_wf(&self) -> bool {
        &&& self.independent_transactions.wf()
        &&& self.by_id.wf()
        &&& self.by_hash.wf()
        &&& self.expiring_nonce_txs.wf()
    }

    fn check_independent(&self) -> (r: bool)
        requires
            self.maps_wf(),
        ensures
            r == (forall|seq: AASequenceId| #[trigger]
                self@.independent.contains_key(seq) ==> next_is_held(self@, seq)),
    {
        let ghost entries = self.independent_transactions.entries@;
        let mut i: usize = 0;
        while i < self.independent_transactions.entries.len()
            invariant
                self.maps_wf(),
                entries == self.independent_transactions.entries@,
                i <= entries.len(),
                forall|j: int|
                    0 <= j < i ==> next_is_held(self@, (#[trigger] entries[j]).0),
            decreases entries.len() - i,
        {
            let seq_id = self.independent_transactions.entries[i].0;
            let tx = &self.independent_transactions.entries[i].1.transaction;
            proof {
                lemma_entry_in_map(entries, i as int);
            }
            let held: bool = match tx.transaction.aa_transaction_id() {
                Some(id) => match self.by_id.get(&id) {
                    Some(entry) => id.seq_id == seq_id && entry.is_pending()
                        && *entry.inner.transaction.hash() == *tx.hash(),
                    None => false,
                },
                None => false,
            };
            if !held {
                assert(self@.independent.contains_key(seq_id));
                return false;
            }
            i = i + 1;
        }
        proof {
            assert forall|seq: AASequenceId| #[trigger] self@.independent.contains_key(
                seq,
            ) implies next_is_held(self@, seq) by {
                let j = lemma_key_has_entry(entries, seq);
            }
        }
        true
    }

    fn check_hashes(&self) -> (r: bool)
        requires
            self.maps_wf(),
        ensures
            r == (forall|hash: TxHash| #[trigger]
                self@.by_hash.contains_key(hash) ==> hash_is_held(self@, hash)),
    {
        let ghost entries = self.by_hash.entries@;
        let mut i: usize = 0;
        while i < self.by_hash.entries.len()
            invariant
                self.maps_wf(),
                entries == self.by_hash.entries@,
                i <= entries.len(),
                forall|j: int|
                    0 <= j < i ==> hash_is_held(self@, (#[trigger] entries[j]).0),
            decreases entries.len() - i,
        {
            let hash = self.by_hash.entries[i].0;
            let tx = &self.by_hash.entries[i].1;
            proof {
                lemma_entry_in_map(entries, i as int);
            }
            let held: bool = if tx.transaction.is_expiring_nonce() {
                match tx.transaction.expiring_nonce_hash() {
                    Some(expiring_hash) => self.expiring_nonce_txs.contains_key(&expiring_hash),
                    None => false,
                }
            } else {
                match tx.transaction.aa_transaction_id() {
                    Some(id) => match self.by_id.get(&id) {
                        Some(entry) => *entry.inner.transaction.hash() == *tx.hash(),
                        None => false,
                    },
                    None => false,
                }
            };
            if !held || *tx.hash() != hash {
                assert(self@.by_hash.contains_key(hash));
                return false;
            }
            i = i + 1;
        }
        proof {
            assert forall|hash: TxHash| #[trigger] self@.by_hash.contains_key(
                hash,
            ) implies hash_is_held(self@, hash) by {
                let j = lemma_key_has_entry(entries, hash);
            }
        }
        true
    }

    fn check_ids(&self) -> (r: bool)
        requires
            self.maps_wf(),
        ensures
            r == (forall|id: AA2dTransactionId| #[trigger]
                self@.by_id.contains_key(id) ==> id_is_held(self@, id)),
    {
        let ghost entries = self.by_id.entries@;
        let mut i: usize = 0;
        while i < self.by_id.entries.len()
            invariant
                self.maps_wf(),
                entries == self.by_id.entries@,
                i <= entries.len(),
                forall|j: int| 0 <= j < i ==> id_is_held(self@, (#[trigger] entries[j]).0),
            decreases entries.len() - i,
        {
            let id = self.by_id.entries[i].0;
            let entry = &self.by_id.entries[i].1;
            proof {
                lemma_entry_in_map(entries, i as int);
            }
            let tx = &entry.inner.transaction;
            let own: bool = match tx.transaction.aa_transaction_id() {
                Some(own) => own == id,
                None => false,
            };
            let next: bool = match self.independent_transactions.get(&id.seq_id) {
                Some(next) => *next.transaction.hash() == *tx.hash(),
                None => false,
            };
            if !own || !self.by_hash.contains_key(tx.hash()) || (next && !entry.is_pending()) {
                assert(self@.by_id.contains_key(id));
                return false;
            }
            i = i + 1;
        }
        proof {
            assert forall|id: AA2dTransactionId| #[trigger] self@.by_id.contains_key(
                id,
            ) implies id_is_held(self@, id) by {
                let j = lemma_key_has_entry(entries, id);
            }
        }
        true
    }

    fn check_expiring(&self) -> (r: bool)
        requires
            self.maps_wf(),
        ensures
            r == (forall|hash: B256| #[trigger]
                self@.expiring.contains_key(hash) ==> expiring_is_held(self@, hash)),
    {
        let ghost entries = self.expiring_nonce_txs.entries@;
        let mut i: usize = 0;
        while i < self.expiring_nonce_txs.entries.len()
            invariant
                self.maps_wf(),
                entries == self.expiring_nonce_txs.entries@,
                i <= entries.len(),
                forall|j: int|
                    0 <= j < i ==> expiring_is_held(self@, (#[trigger] entries[j]).0),
            decreases entries.len() - i,
        {
            let tx = &self.expiring_nonce_txs.entries[i].1.transaction;
            proof {
                lemma_entry_in_map(entries, i as int);
            }
            if !self.by_hash.contains_key(tx.hash()) || !tx.transaction.is_expiring_nonce() {
                assert(self@.expiring.contains_key(entries[i as int].0));
                return false;
            }
            i = i + 1;
        }
        proof {
            assert forall|hash: B256| #[trigger] self@.expiring.contains_key(
                hash,
            ) implies expiring_is_held(self@, hash) by {
                let j = lemma_key_has_entry(entries, hash);
            }
        }
        true
    }

    /// Returns `true` if the pool keeps everything that it promises about itself.
    pub fn invariants_hold(&self) -> (r: bool)
        requires
            self.maps_wf(),
        ensures
            r == invariants(self@),
    {
        proof {
            lemma_entry_map_len(self.independent_transactions.entries@);
            lemma_entry_map_len(self.by_id.entries@);
            lemma_entry_map_len(self.by_hash.entries@);
            lemma_entry_map_len(self.expiring_nonce_txs.entries@);
            assert(self.by_hash.entries.len() == self.by_hash.entries@.len());
            lemma_count_split(self.by_id@, with_pending(true), with_pending(false));
        }
        let independent: usize = self.independent_transactions.len();
        let sequential: usize = self.by_id.len();
        let expiring: usize = self.expiring_nonce_txs.len();
        let hashes: usize = self.by_hash.len();
        let total: usize = match sequential.checked_add(expiring) {
            Some(total) => total,
            None => {
                return false;
            },
        };
        if independent > sequential || total != hashes {
            return false;
        }
        let (pending, queued) = self.count_marks();
        proof {
            lemma_count_bound(self.by_id@, with_pending(true));
        }
        if pending + expiring > self.config.pending_limit.max_txs || queued
            > self.config.queued_limit.max_txs {
            return false;
        }
        self.check_independent() && self.check_hashes() && self.check_ids() && self.check_expiring()
    }
}

/// No transaction with an expiring nonce is held under its identifier.
pub open spec fn sequential_only(s: PoolState) -> bool {
    forall|id: AA2dTransactionId| #[trigger]
        s.by_id.contains_key(id)
            ==> !s.by_id[id].inner.transaction.transaction.spec_is_expiring_nonce()
}

/// A pool in which what is next in line is right, no expiring nonce transaction is held as a
/// sequential one, and the counts are within the limits, keeps everything that it promises.
pub proof fn law_invariants(s: PoolState)
    requires
        inv(s),
        s.by_hash.dom().finite(),
        s.independent.dom().finite(),
        coherent(s),
        sequential_only(s),
        within_quotas(s),
    ensures
        invariants(s),
{
    reveal(inv);
    lemma_hashes_total(s);
    lemma_count_split(s.by_id, with_pending(true), with_pending(false));
    let f = |seq: AASequenceId|
        tx_id(seq, s.independent[seq].transaction.transaction.inner.nonce);
    assert forall|seq: AASequenceId| #[trigger] s.independent.contains_key(
        seq,
    ) implies next_is_held(s, seq) by {
        assert(in_line(s, seq));
    }
    let image = s.independent.dom().map(f);
    s.independent.dom().lemma_map_finite(f);
    vstd::set_lib::lemma_map_size(s.independent.dom(), image, f);
    assert(image.subset_of(s.by_id.dom())) by {
        assert forall|id: AA2dTransactionId| image.contains(id) implies #[trigger] s.by_id.dom().contains(
            id,
        ) by {
            let seq = choose|seq: AASequenceId| s.independent.dom().contains(seq) && f(seq) == id;
            assert(in_line(s, seq));
        }
    }
    vstd::set_lib::lemma_len_subset(image, s.by_id.dom());
    assert forall|id: AA2dTransactionId| #[trigger] s.by_id.contains_key(id) implies id_is_held(
        s,
        id,
    ) by {
        assert(in_line(s, id.seq_id));
        if s.independent.contains_key(id.seq_id) && s.independent[id.seq_id].transaction.spec_hash()
            == s.by_id[id].inner.transaction.spec_hash() {
            let next = f(id.seq_id);
            assert(s.by_id.contains_key(next));
            crate::pool_state::lemma_hash_has_one_id(s, next, id);
        }
    }
}

/// Each transaction that the pool holds stands under its own hash, and each hash stands for one;
/// each sequential transaction stands under its own identifier and each expiring one under its
/// expiring nonce hash; what is next in line for a sequence is a pending transaction of that
/// sequence; and each sender is on record with the number of its transactions, unless it has none.
pub open spec fn bookkeeping(s: PoolState) -> bool {
    &&& ids_agree(s)
    &&& expiring_agree(s)
    &&& hashes_agree(s)
    &&& senders_agree(s)
    &&& forall|seq: AASequenceId| #[trigger] s.independent.contains_key(seq) ==> next_is_held(s, seq)
}

/// Handing a transaction to the pool, with the nonce on chain that the pool last saw for its
/// sequence, keeps the invariant, coherence and the bookkeeping, whether the pool takes the
/// transaction or refuses it. If the pool takes it, the counts are within the limits.
pub proof fn law_adding_keeps_bookkeeping(
    s: PoolState,
    tx: Arc<ValidPoolTransaction>,
    on_chain_nonce: u64,
    hardfork: TempoHardfork,
    base_fee: u64,
)
    requires
        inv(s),
        coherent(s),
        tx.transaction.inner.aa is Some,
        last_saw(s, tx.transaction.spec_id()->0.seq_id, on_chain_nonce),
    ensures
        ({
            let t = after_adding(s, tx, on_chain_nonce, hardfork, base_fee);
            &&& inv(t)
            &&& coherent(t)
            &&& bookkeeping(t)
            &&& refusal(s, tx, on_chain_nonce, hardfork) is None ==> within_quotas(t)
        }),
{
    let t = after_adding(s, tx, on_chain_nonce, hardfork, base_fee);
    match refusal(s, tx, on_chain_nonce, hardfork) {
        Some(_) => {
            lemma_next_submission_inv(s);
            lemma_coherent_same(s, t);
        },
        None => {
            let m = accepted(s, tx, on_chain_nonce, hardfork, base_fee);
            lemma_accepted_inv(s, tx, on_chain_nonce, hardfork, base_fee);
            law_within_limits(m);
            assert(agrees(s, tx, on_chain_nonce, hardfork)) by {
                if !(hardfork.spec_is_t1() && tx.transaction.spec_is_expiring_nonce()) {
                    law_last_seen_agrees(s, tx.transaction.spec_id()->0, on_chain_nonce);
                }
            }
            law_added_coherent(s, tx, on_chain_nonce, hardfork, base_fee);
        },
    }
    law_coherent_bookkeeping(t);
}

/// The bookkeeping of a coherent pool is in order.
pub proof fn law_coherent_bookkeeping(s: PoolState)
    requires
        inv(s),
        coherent(s),
    ensures
        bookkeeping(s),
{
    reveal(inv);
    assert forall|seq: AASequenceId| #[trigger] s.independent.contains_key(
        seq,
    ) implies next_is_held(s, seq) by {
        assert(in_line(s, seq));
    }
}

} // verus!
