//! Which transactions are in the pool after each operation.
use crate::coherence::{
    lemma_accepted_inv, lemma_all_mined_at, lemma_without_ids_members, lemma_without_ids_subset,
};
use crate::eviction::{
    excess, first_out, is_first_expiring_out, is_first_out, pending_evicted, pending_trimmed,
    pending_victim, queued_evicted, queued_trimmed, victim_tx, within_limits, without_victim,
    Victim,
};
use crate::hardfork::TempoHardfork;
use crate::ids::{tx_id, AASequenceId};
use crate::insertion::{accepted, refusal, replaced_by};
use crate::ordered::ascending;
use crate::pool_laws::law_victim_counts;
use crate::pool_state::{
    inv, lemma_without_id_inv, one_less, pending_count, queued_count, recorded, without_id, PoolState,
};
use crate::primitives::{Address, TxHash};
use crate::removal::{lemma_without_hashes, removed_hashes};
use crate::transaction::ValidPoolTransaction;
use crate::updates::{all_mined, all_settled, lemma_all_settled_same, nonces_changed};
use std::sync::Arc;
use vstd::prelude::*;

verus! {

/// One of the transactions has the hash.
pub open spec fn among(hash: TxHash, txs: Seq<Arc<ValidPoolTransaction>>) -> bool {
    exists|i: int| 0 <= i < txs.len() && (#[trigger] txs[i]).spec_hash() == hash
}

/// The pool `t` holds what the pool `s` holds, but for some transactions.
pub open spec fn holds_all_but(
    t: PoolState,
    s: PoolState,
    gone: Seq<Arc<ValidPoolTransaction>>,
) -> bool {
    forall|h: TxHash| #[trigger]
        t.by_hash.contains_key(h) <==> s.by_hash.contains_key(h) && !among(h, gone)
}

/// What two pools share is the same in both.
pub open spec fn agree_on_common(t: PoolState, s: PoolState) -> bool {
    forall|h: TxHash| #[trigger]
        t.by_hash.contains_key(h) ==> s.by_hash.contains_key(h) && t.by_hash[h] == s.by_hash[h]
}

/// A transaction is among those that start with another one if it is that one or among the rest.
proof fn lemma_among_first(tx: Arc<ValidPoolTransaction>, rest: Seq<Arc<ValidPoolTransaction>>)
    ensures
        forall|h: TxHash| #[trigger]
            among(h, seq![tx] + rest) <==> h == tx.spec_hash() || among(h, rest),
{
    let all = seq![tx] + rest;
    assert forall|h: TxHash| #[trigger] among(h, all) <==> h == tx.spec_hash() || among(h, rest) by {
        if among(h, all) {
            let i = choose|i: int| 0 <= i < all.len() && (#[trigger] all[i]).spec_hash() == h;
            if i > 0 {
                assert(rest[i - 1].spec_hash() == h);
            }
        }
        if h == tx.spec_hash() {
            assert(all[0].spec_hash() == h);
        }
        if among(h, rest) {
            let i = choose|i: int| 0 <= i < rest.len() && (#[trigger] rest[i]).spec_hash() == h;
            assert(all[i + 1].spec_hash() == h);
        }
    }
}

/// A transaction is among two lists together if it is among one of them.
proof fn lemma_among_both(a: Seq<Arc<ValidPoolTransaction>>, b: Seq<Arc<ValidPoolTransaction>>)
    ensures
        forall|h: TxHash| #[trigger] among(h, a + b) <==> among(h, a) || among(h, b),
{
    assert forall|h: TxHash| #[trigger] among(h, a + b) <==> among(h, a) || among(h, b) by {
        if among(h, a + b) {
            let i = choose|i: int| 0 <= i < (a + b).len() && (#[trigger] (a + b)[i]).spec_hash() == h;
            if i < a.len() {
                assert(a[i].spec_hash() == h);
            } else {
                assert(b[i - a.len()].spec_hash() == h);
            }
        }
        if among(h, a) {
            let i = choose|i: int| 0 <= i < a.len() && (#[trigger] a[i]).spec_hash() == h;
            assert((a + b)[i].spec_hash() == h);
        }
        if among(h, b) {
            let i = choose|i: int| 0 <= i < b.len() && (#[trigger] b[i]).spec_hash() == h;
            assert((a + b)[a.len() + i].spec_hash() == h);
        }
    }
}

/// What leaves when queued transactions are evicted is exactly what is handed out.
proof fn lemma_queued_evicted_are_gone(s: PoolState, n: nat)
    ensures
        holds_all_but(queued_evicted(s, n).0, s, queued_evicted(s, n).1),
        agree_on_common(queued_evicted(s, n).0, s),
    decreases n,
{
    if n > 0 {
        match first_out(s.by_id, false) {
            Some(id) => {
                assert(is_first_out(s.by_id, false, id));
                let t = without_id(s, id);
                lemma_queued_evicted_are_gone(t, (n - 1) as nat);
                lemma_among_first(
                    s.by_id[id].inner.transaction,
                    queued_evicted(t, (n - 1) as nat).1,
                );
            },
            None => {},
        }
    }
}

/// What leaves when pending transactions are evicted is exactly what is handed out.
proof fn lemma_pending_evicted_are_gone(s: PoolState, n: nat)
    ensures
        holds_all_but(pending_evicted(s, n).0, s, pending_evicted(s, n).1),
        agree_on_common(pending_evicted(s, n).0, s),
    decreases n,
{
    if n > 0 {
        match pending_victim(s) {
            Some(victim) => {
                match victim {
                    Victim::Sequential(id) => {
                        assert(is_first_out(s.by_id, true, id));
                    },
                    Victim::Expiring(hash) => {
                        assert(is_first_expiring_out(s.expiring, hash));
                    },
                }
                let t = without_victim(s, victim);
                lemma_pending_evicted_are_gone(t, (n - 1) as nat);
                lemma_among_first(victim_tx(s, victim), pending_evicted(t, (n - 1) as nat).1);
            },
            None => {},
        }
    }
}

/// Bringing the pool within its limits takes out exactly the transactions that it hands out.
pub proof fn law_discarded_are_gone(s: PoolState)
    ensures
        holds_all_but(within_limits(s).0, s, within_limits(s).1),
        agree_on_common(within_limits(s).0, s),
{
    let queued = queued_trimmed(s);
    let pending = pending_trimmed(queued.0);
    let demoted = queued_trimmed(pending.0);
    let u = queued.0;
    let v = pending.0;
    lemma_queued_evicted_are_gone(s, excess(queued_count(s), s.config.queued_limit.max_txs));
    lemma_pending_evicted_are_gone(u, excess(pending_count(u), u.config.pending_limit.max_txs));
    lemma_queued_evicted_are_gone(v, excess(queued_count(v), v.config.queued_limit.max_txs));
    lemma_among_both(queued.1, pending.1);
    lemma_among_both(queued.1 + pending.1, demoted.1);
}

/// After a transaction was added, the pool holds it and all that it held before, but for the
/// transaction that it replaced and those that had to make room. What it holds under the hash of
/// the new transaction is that transaction.
pub proof fn law_added_is_held(
    s: PoolState,
    tx: Arc<ValidPoolTransaction>,
    on_chain_nonce: u64,
    hardfork: TempoHardfork,
    base_fee: u64,
)
    requires
        inv(s),
        tx.transaction.inner.aa is Some,
        refusal(s, tx, on_chain_nonce, hardfork) is None,
    ensures
        ({
            let kept = within_limits(accepted(s, tx, on_chain_nonce, hardfork, base_fee));
            let id = tx.transaction.spec_id()->0;
            let expiring = hardfork.spec_is_t1() && tx.transaction.spec_is_expiring_nonce();
            let replaced = if expiring {
                None
            } else {
                replaced_by(s, id)
            };
            &&& forall|h: TxHash| #[trigger]
                kept.0.by_hash.contains_key(h) <==> !among(h, kept.1) && (h == tx.spec_hash() || (
                s.by_hash.contains_key(h) && !(replaced matches Some(old) && old.spec_hash() == h)))
            &&& kept.0.by_hash.contains_key(tx.spec_hash()) ==> kept.0.by_hash[tx.spec_hash()] == tx
        }),
{
    law_discarded_are_gone(accepted(s, tx, on_chain_nonce, hardfork, base_fee));
}

/// Taking a transaction out raises no sender's count.
proof fn lemma_one_less(senders: Map<Address, usize>, sender: Address, a: Address)
    requires
        senders.contains_key(sender) ==> senders[sender] > 0,
    ensures
        recorded(one_less(senders, sender), a) <= recorded(senders, a),
{
}

/// Evicting queued transactions raises no sender's count.
proof fn lemma_queued_evicted_senders(s: PoolState, n: nat, a: Address)
    requires
        inv(s),
    ensures
        inv(queued_evicted(s, n).0),
        recorded(queued_evicted(s, n).0.senders, a) <= recorded(s.senders, a),
        queued_evicted(s, n).0.config == s.config,
    decreases n,
{
    if n > 0 {
        match first_out(s.by_id, false) {
            Some(id) => {
                let sender = s.by_id[id].inner.transaction.transaction.inner.sender;
                assert(s.senders.contains_key(sender) ==> s.senders[sender] > 0) by {
                    reveal(inv);
                }
                lemma_one_less(s.senders, sender, a);
                lemma_without_id_inv(s, id);
                lemma_queued_evicted_senders(without_id(s, id), (n - 1) as nat, a);
            },
            None => {},
        }
    }
}

/// Evicting pending transactions raises no sender's count.
proof fn lemma_pending_evicted_senders(s: PoolState, n: nat, a: Address)
    requires
        inv(s),
    ensures
        inv(pending_evicted(s, n).0),
        recorded(pending_evicted(s, n).0.senders, a) <= recorded(s.senders, a),
        pending_evicted(s, n).0.config == s.config,
    decreases n,
{
    if n > 0 {
        match pending_victim(s) {
            Some(victim) => {
                let sender = victim_tx(s, victim).transaction.inner.sender;
                assert(s.senders.contains_key(sender) ==> s.senders[sender] > 0) by {
                    reveal(inv);
                }
                lemma_one_less(s.senders, sender, a);
                law_victim_counts(s, victim);
                lemma_pending_evicted_senders(without_victim(s, victim), (n - 1) as nat, a);
            },
            None => {},
        }
    }
}

/// No sender gets more transactions into the pool than it may have, if none had more before.
pub proof fn law_sender_limit_is_kept(
    s: PoolState,
    tx: Arc<ValidPoolTransaction>,
    on_chain_nonce: u64,
    hardfork: TempoHardfork,
    base_fee: u64,
)
    requires
        inv(s),
        tx.transaction.inner.aa is Some,
        refusal(s, tx, on_chain_nonce, hardfork) is None,
        forall|a: Address| #[trigger] recorded(s.senders, a) <= s.config.max_txs_per_sender,
    ensures
        ({
            let t = within_limits(accepted(s, tx, on_chain_nonce, hardfork, base_fee)).0;
            forall|a: Address| #[trigger] recorded(t.senders, a) <= t.config.max_txs_per_sender
        }),
{
    let m = accepted(s, tx, on_chain_nonce, hardfork, base_fee);
    let sender = tx.transaction.inner.sender;
    lemma_accepted_inv(s, tx, on_chain_nonce, hardfork, base_fee);
    let u = queued_trimmed(m).0;
    let v = pending_trimmed(u).0;
    let n = excess(queued_count(m), m.config.queued_limit.max_txs);
    let k = excess(pending_count(u), u.config.pending_limit.max_txs);
    let l = excess(queued_count(v), v.config.queued_limit.max_txs);
    let t = within_limits(m).0;
    assert forall|a: Address| #[trigger] recorded(t.senders, a) <= t.config.max_txs_per_sender by {
        assert(recorded(s.senders, a) <= s.config.max_txs_per_sender);
        assert(recorded(s.senders, sender) <= s.config.max_txs_per_sender);
        assert(recorded(m.senders, a) <= m.config.max_txs_per_sender);
        lemma_queued_evicted_senders(m, n, a);
        lemma_pending_evicted_senders(u, k, a);
        lemma_queued_evicted_senders(v, l, a);
    }
}

/// After transactions were removed, the pool holds none of them, and all others as before.
pub proof fn law_removed_are_gone(s: PoolState, hashes: Seq<TxHash>)
    requires
        inv(s),
    ensures
        forall|h: TxHash| #[trigger]
            removed_hashes(s, hashes).by_hash.contains_key(h) <==> s.by_hash.contains_key(h)
                && !hashes.contains(h),
        agree_on_common(removed_hashes(s, hashes), s),
{
    lemma_without_hashes(s, hashes);
}

/// After the nonces on chain changed, no transaction with a nonce that was used up is left.
pub proof fn law_mined_are_gone(
    s: PoolState,
    changes: Seq<(AASequenceId, u64)>,
    k: int,
    nonce: u64,
)
    requires
        inv(s),
        ascending(changes),
        0 <= k < changes.len(),
        nonce < changes[k].1,
    ensures
        !nonces_changed(s, changes).by_id.contains_key(tx_id(changes[k].0, nonce)),
{
    let id = tx_id(changes[k].0, nonce);
    let mined = all_mined(s.by_id, changes);
    lemma_all_settled_same(s, changes);
    if s.by_id.contains_key(id) {
        lemma_all_mined_at(s.by_id, changes, k, nonce);
        lemma_without_ids_members(all_settled(s, changes), mined, id);
    } else {
        lemma_without_ids_subset(all_settled(s, changes), mined, id);
        assert(!all_settled(s, changes).by_id.dom().contains(id));
    }
}

} // verus!
