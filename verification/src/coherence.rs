//! When the transactions that are next in line are the right ones.
use crate::eviction::{
    excess, first_out, pending_evicted, pending_trimmed, pending_victim, queued_evicted,
    queued_trimmed, within_limits, without_victim, Victim,
};
use crate::hardfork::TempoHardfork;
use crate::ids::{tx_id, AA2dTransactionId, AASequenceId};
use crate::insertion::{accepted, added, placed, refusal};
use crate::ordered::{ascending, OrdKey};
use crate::pool_laws::{
    law_first_out_exists, law_pending_evicted, law_queued_trimmed, law_victim_counts,
};
use crate::pool_state::{
    follows_any, found_ids, held_as_expiring, ids_between, inv, lemma_run_end_spans,
    lemma_without_id_inv, lemma_without_tx_hashes, lemma_without_tx_inv, next_submission, queued_above, run_end,
    same_txs, without_expiring, without_hashes, without_id, without_ids, without_tx, ById,
    PoolState,
};
use crate::primitives::{Address, TxHash, B256};
use crate::removal::{
    lemma_ids_between_members, lemma_without_hashes, lemma_without_ids_keeps, removed_hashes,
    removed_with_gap, without_families, without_family,
};
use crate::transaction::ValidPoolTransaction;
use crate::updates::{
    all_mined, all_settled, has_from, lemma_all_mined_members, nonces_changed, nonces_updated,
    settled, updated_nonces, updated_seen, without_all_expiring, AccountUpdate,
};
use std::sync::Arc;
use vstd::prelude::*;

verus! {

/// If a transaction of the sequence is next in line, the pool holds it, it is pending, and the
/// sequence has no transaction with a lower nonce.
pub open spec fn in_line(s: PoolState, seq: AASequenceId) -> bool {
    s.independent.contains_key(seq) ==> {
        let tx = s.independent[seq];
        let nonce = tx.transaction.transaction.inner.nonce;
        &&& s.by_id.contains_key(tx_id(seq, nonce))
        &&& s.by_id[tx_id(seq, nonce)].inner == tx
        &&& s.by_id[tx_id(seq, nonce)].is_pending
        &&& forall|n: u64| s.by_id.contains_key(#[trigger] tx_id(seq, n)) ==> nonce <= n
    }
}

/// In every sequence, what is next in line is a pending transaction of the pool that no other
/// transaction of the sequence precedes.
pub open spec fn coherent(s: PoolState) -> bool {
    forall|seq: AASequenceId| #[trigger] in_line(s, seq)
}

/// The nonce on chain that a transaction is added with agrees with what the pool knows: the
/// sequence has no transaction below it, and a transaction that is next in line precedes the new
/// one unless the new one has the nonce on chain.
pub open spec fn in_step(s: PoolState, id: AA2dTransactionId, on_chain_nonce: u64) -> bool {
    &&& forall|n: u64| s.by_id.contains_key(#[trigger] tx_id(id.seq_id, n)) ==> on_chain_nonce <= n
    &&& s.independent.contains_key(id.seq_id)
        ==> s.independent[id.seq_id].transaction.transaction.inner.nonce < id.nonce || id.nonce
        == on_chain_nonce
}

/// The nonce is the one on chain that the pool last saw for a sequence: the sequence has no
/// transaction below it, and what is next in line has it.
pub open spec fn last_saw(s: PoolState, seq: AASequenceId, on_chain_nonce: u64) -> bool {
    &&& forall|n: u64| s.by_id.contains_key(#[trigger] tx_id(seq, n)) ==> on_chain_nonce <= n
    &&& s.independent.contains_key(seq)
        ==> s.independent[seq].transaction.transaction.inner.nonce == on_chain_nonce
}

/// The nonce on chain that a transaction is added with agrees with what the pool knows, or the
/// transaction has an expiring nonce and needs none.
pub open spec fn agrees(
    s: PoolState,
    tx: Arc<ValidPoolTransaction>,
    on_chain_nonce: u64,
    hardfork: TempoHardfork,
) -> bool {
    (hardfork.spec_is_t1() && tx.transaction.spec_is_expiring_nonce()) || in_step(
        s,
        tx.transaction.spec_id()->0,
        on_chain_nonce,
    )
}

proof fn lemma_coherent_without_id(s: PoolState, id: AA2dTransactionId)
    requires
        coherent(s),
    ensures
        coherent(without_id(s, id)),
        s.by_id.contains_key(id) && without_id(s, id).independent.contains_key(id.seq_id)
            ==> without_id(s, id).independent[id.seq_id].transaction.transaction.inner.nonce
            < id.nonce,
        forall|seq: AASequenceId| #[trigger]
            without_id(s, id).independent.contains_key(seq) ==> s.independent.contains_key(seq)
                && s.independent[seq] == without_id(s, id).independent[seq],
{
    let t = without_id(s, id);
    assert(in_line(s, id.seq_id));
    assert(id == tx_id(id.seq_id, id.nonce));
    assert forall|seq: AASequenceId| #[trigger] in_line(t, seq) by {
        assert(in_line(s, seq));
    }
}

/// Coherence depends on the sequential transactions and on what is next in line alone.
pub proof fn lemma_coherent_same(s: PoolState, t: PoolState)
    requires
        coherent(s),
        t.by_id == s.by_id,
        t.independent == s.independent,
    ensures
        coherent(t),
{
    assert forall|seq: AASequenceId| #[trigger] in_line(t, seq) by {
        assert(in_line(s, seq));
    }
}

proof fn lemma_coherent_queued_above(s: PoolState, seq: AASequenceId, nonce: u64)
    requires
        coherent(s),
        s.independent.contains_key(seq)
            ==> s.independent[seq].transaction.transaction.inner.nonce <= nonce,
    ensures
        coherent((PoolState { by_id: queued_above(s.by_id, seq, nonce), ..s })),
{
    let t = PoolState { by_id: queued_above(s.by_id, seq, nonce), ..s };
    assert forall|q: AASequenceId| #[trigger] in_line(t, q) by {
        assert(in_line(s, q));
    }
}

proof fn lemma_coherent_without_tx(s: PoolState, hash: TxHash)
    requires
        inv(s),
        coherent(s),
        s.by_hash.contains_key(hash),
    ensures
        coherent(without_tx(s, *s.by_hash[hash])),
        !held_as_expiring(s, *s.by_hash[hash]) ==> ({
            let id = s.by_hash[hash].transaction.spec_id()->0;
            let t = without_tx(s, *s.by_hash[hash]);
            t.independent.contains_key(id.seq_id)
                ==> t.independent[id.seq_id].transaction.transaction.inner.nonce < id.nonce
        }),
        forall|seq: AASequenceId| #[trigger]
            without_tx(s, *s.by_hash[hash]).independent.contains_key(seq)
                ==> s.independent.contains_key(seq) && s.independent[seq] == without_tx(
                s,
                *s.by_hash[hash],
            ).independent[seq],
{
    lemma_without_tx_hashes(s, hash);
    lemma_coherent_without_id(s, id_at(s, hash));
    lemma_coherent_same(s, without_expiring(s, expiring_hash_at(s, hash)));
}

proof fn lemma_coherent_without_hashes(s: PoolState, hashes: Seq<TxHash>)
    requires
        inv(s),
        coherent(s),
    ensures
        coherent(without_hashes(s, hashes)),
        forall|j: int|
            0 <= j < found_ids(s, hashes).len() ==> {
                let id = #[trigger] found_ids(s, hashes)[j];
                let t = without_hashes(s, hashes);
                t.independent.contains_key(id.seq_id)
                    ==> t.independent[id.seq_id].transaction.transaction.inner.nonce < id.nonce
            },
    decreases hashes.len(),
{
    if hashes.len() > 0 {
        let head = hashes.drop_last();
        let t = without_hashes(s, head);
        lemma_coherent_without_hashes(s, head);
        lemma_without_hashes(s, head);
        if t.by_hash.contains_key(hashes.last()) {
            lemma_coherent_without_tx(t, hashes.last());
            let u = without_hashes(s, hashes);
            let ids = found_ids(s, hashes);
            let before = found_ids(s, head);
            assert forall|j: int| 0 <= j < ids.len() implies {
                let id = #[trigger] ids[j];
                u.independent.contains_key(id.seq_id)
                    ==> u.independent[id.seq_id].transaction.transaction.inner.nonce < id.nonce
            } by {
                if j < before.len() {
                    assert(ids[j] == before[j]);
                }
            }
        }
    }
}

/// Taking out any transactions, as the removal by sender does, keeps the pool coherent.
pub proof fn law_without_hashes_coherent(s: PoolState, hashes: Seq<TxHash>)
    requires
        inv(s),
        coherent(s),
    ensures
        coherent(without_hashes(s, hashes)),
{
    lemma_coherent_without_hashes(s, hashes);
}

/// Removing transactions by hash, and queueing what follows them, keeps the pool coherent.
pub proof fn law_removed_hashes_coherent(s: PoolState, hashes: Seq<TxHash>)
    requires
        inv(s),
        coherent(s),
    ensures
        coherent(removed_hashes(s, hashes)),
{
    lemma_coherent_without_hashes(s, hashes);
    let t = without_hashes(s, hashes);
    let u = removed_hashes(s, hashes);
    let ids = found_ids(s, hashes);
    assert forall|seq: AASequenceId| #[trigger] in_line(u, seq) by {
        assert(in_line(t, seq));
        if t.independent.contains_key(seq) {
            let nonce = t.independent[seq].transaction.transaction.inner.nonce;
            if follows_any(tx_id(seq, nonce), ids) {
                let j = choose|j: int|
                    0 <= j < ids.len() && (#[trigger] ids[j]).seq_id == seq && ids[j].nonce < nonce;
                assert(t.independent.contains_key(ids[j].seq_id));
            }
        }
    }
}

proof fn lemma_coherent_without_ids(s: PoolState, ids: Seq<AA2dTransactionId>)
    requires
        coherent(s),
    ensures
        coherent(without_ids(s, ids)),
    decreases ids.len(),
{
    if ids.len() > 0 {
        lemma_coherent_without_ids(s, ids.drop_last());
        lemma_coherent_without_id(without_ids(s, ids.drop_last()), ids.last());
    }
}

proof fn lemma_without_ids_inv(s: PoolState, ids: Seq<AA2dTransactionId>)
    requires
        inv(s),
    ensures
        inv(without_ids(s, ids)),
    decreases ids.len(),
{
    if ids.len() > 0 {
        lemma_without_ids_inv(s, ids.drop_last());
        lemma_without_id_inv(without_ids(s, ids.drop_last()), ids.last());
    }
}

/// The transaction of a hash is held among those with expiring nonces.
spec fn expires_at(s: PoolState, hash: TxHash) -> bool {
    held_as_expiring(s, *s.by_hash[hash])
}

/// The identifier of the transaction of a hash.
spec fn id_at(s: PoolState, hash: TxHash) -> AA2dTransactionId {
    s.by_hash[hash].transaction.spec_id()->0
}

/// The expiring nonce hash of the transaction of a hash.
spec fn expiring_hash_at(s: PoolState, hash: TxHash) -> B256 {
    s.by_hash[hash].transaction.spec_expiring_nonce_hash()->0
}

/// The pool without the transaction of a hash.
spec fn without_at(s: PoolState, hash: TxHash) -> PoolState {
    without_tx(s, *s.by_hash[hash])
}

/// The pool without the transaction of a hash, its descendants queued.
spec fn removed_at(s: PoolState, hash: TxHash) -> PoolState {
    removed_with_gap(s, *s.by_hash[hash])
}

proof fn lemma_family_coherent(s: PoolState, hash: TxHash)
    requires
        inv(s),
        coherent(s),
        s.by_hash.contains_key(hash),
    ensures
        coherent(without_family(s, *s.by_hash[hash])),
        inv(without_family(s, *s.by_hash[hash])),
{
    lemma_coherent_without_tx(s, hash);
    lemma_without_tx_inv(s);
    let u = removed_at(s, hash);
    let t = without_at(s, hash);
    assert(inv(t));
    if !expires_at(s, hash) {
        assert(coherent(u) && inv(u)) by {
            let id = id_at(s, hash);
            lemma_coherent_queued_above(t, id.seq_id, id.nonce);
            assert(same_txs(t.by_id, u.by_id)) by {
                assert(t.by_id.dom() =~= u.by_id.dom());
            }
            crate::pool_state::lemma_new_marks_keep_inv(t, u.by_id);
        }
    }
    assert forall|ids: Seq<AA2dTransactionId>| coherent(#[trigger] without_ids(u, ids)) && inv(
        without_ids(u, ids),
    ) by {
        lemma_coherent_without_ids(u, ids);
        lemma_without_ids_inv(u, ids);
    }
}

/// Removing transactions with their descendants keeps the pool coherent.
pub proof fn law_without_families_coherent(s: PoolState, hashes: Seq<TxHash>)
    requires
        inv(s),
        coherent(s),
    ensures
        coherent(without_families(s, hashes)),
        inv(without_families(s, hashes)),
    decreases hashes.len(),
{
    if hashes.len() > 0 {
        let t = without_families(s, hashes.drop_last());
        law_without_families_coherent(s, hashes.drop_last());
        if t.by_hash.contains_key(hashes.last()) {
            lemma_family_coherent(t, hashes.last());
        }
    }
}

/// Evictions of queued transactions keep the pool coherent.
proof fn lemma_queued_evicted_coherent(s: PoolState, n: nat)
    requires
        coherent(s),
    ensures
        coherent(queued_evicted(s, n).0),
    decreases n,
{
    if n > 0 {
        match first_out(s.by_id, false) {
            Some(id) => {
                lemma_coherent_without_id(s, id);
                lemma_queued_evicted_coherent(without_id(s, id), (n - 1) as nat);
            },
            None => {},
        }
    }
}

proof fn lemma_pending_evicted_coherent(s: PoolState, n: nat)
    requires
        inv(s),
        coherent(s),
    ensures
        coherent(pending_evicted(s, n).0),
    decreases n,
{
    if n > 0 {
        match pending_victim(s) {
            Some(victim) => {
                law_victim_counts(s, victim);
                match victim {
                    Victim::Sequential(id) => {
                        assert(s.by_id.dom().finite()) by {
                            reveal(inv);
                        }
                        law_first_out_exists(s.by_id, true);
                        lemma_coherent_without_id(s, id);
                        lemma_coherent_queued_above(without_id(s, id), id.seq_id, id.nonce);
                    },
                    Victim::Expiring(hash) => {
                        lemma_coherent_same(s, without_expiring(s, hash));
                    },
                }
                lemma_pending_evicted_coherent(without_victim(s, victim), (n - 1) as nat);
            },
            None => {},
        }
    }
}

/// Evicting the queued transactions that there are too many of keeps the pool coherent.
proof fn lemma_queued_trimmed_coherent(s: PoolState)
    requires
        coherent(s),
    ensures
        coherent(queued_trimmed(s).0),
{
    lemma_queued_evicted_coherent(
        s,
        excess(crate::pool_state::queued_count(s), s.config.queued_limit.max_txs),
    );
}

/// Bringing the pool within its limits keeps it coherent.
pub proof fn law_within_limits_coherent(s: PoolState)
    requires
        inv(s),
        coherent(s),
    ensures
        coherent(within_limits(s).0),
{
    let u = queued_trimmed(s).0;
    law_queued_trimmed(s);
    lemma_queued_trimmed_coherent(s);
    let v = pending_trimmed(u).0;
    let n = excess(crate::pool_state::pending_count(u), u.config.pending_limit.max_txs);
    law_pending_evicted(u, n);
    lemma_pending_evicted_coherent(u, n);
    lemma_queued_trimmed_coherent(v);
}

/// The pool after a transaction was handed to it, whether it takes it or refuses it.
pub open spec fn after_adding(
    s: PoolState,
    tx: Arc<ValidPoolTransaction>,
    on_chain_nonce: u64,
    hardfork: TempoHardfork,
    base_fee: u64,
) -> PoolState {
    match refusal(s, tx, on_chain_nonce, hardfork) {
        Some((_, true)) => next_submission(s),
        Some((_, false)) => s,
        None => within_limits(accepted(s, tx, on_chain_nonce, hardfork, base_fee)).0,
    }
}

/// Handing a transaction to the pool, with a nonce on chain that agrees with what the pool knows,
/// keeps the pool coherent, whether the pool takes it or refuses it.
pub proof fn law_added_coherent(
    s: PoolState,
    tx: Arc<ValidPoolTransaction>,
    on_chain_nonce: u64,
    hardfork: TempoHardfork,
    base_fee: u64,
)
    requires
        inv(s),
        coherent(s),
        tx.transaction.inner.aa is Some,
        agrees(s, tx, on_chain_nonce, hardfork),
    ensures
        coherent(after_adding(s, tx, on_chain_nonce, hardfork, base_fee)),
{
    if refusal(s, tx, on_chain_nonce, hardfork) is Some {
        lemma_coherent_same(s, next_submission(s));
    } else {
        let t = accepted(s, tx, on_chain_nonce, hardfork, base_fee);
        assert(inv(t)) by {
            lemma_accepted_inv(s, tx, on_chain_nonce, hardfork, base_fee);
        }
        assert(coherent(t)) by {
            if hardfork.spec_is_t1() && tx.transaction.spec_is_expiring_nonce() {
                lemma_coherent_same(s, t);
            } else {
                lemma_added_in_line(s, tx, tx.transaction.spec_id()->0, on_chain_nonce, base_fee);
            }
        }
        law_within_limits_coherent(t);
    }
}

/// The nonce on chain that the pool last saw agrees with what it knows, for every transaction that
/// is not below it.
pub proof fn law_last_seen_agrees(s: PoolState, id: AA2dTransactionId, on_chain_nonce: u64)
    requires
        last_saw(s, id.seq_id, on_chain_nonce),
        on_chain_nonce <= id.nonce,
    ensures
        in_step(s, id, on_chain_nonce),
{
}

/// Adding a transaction that is not refused keeps the invariant.
pub proof fn lemma_accepted_inv(
    s: PoolState,
    tx: Arc<ValidPoolTransaction>,
    on_chain_nonce: u64,
    hardfork: TempoHardfork,
    base_fee: u64,
)
    requires
        inv(s),
        tx.transaction.inner.aa is Some,
        refusal(s, tx, on_chain_nonce, hardfork) is None,
    ensures
        inv(accepted(s, tx, on_chain_nonce, hardfork, base_fee)),
{
    assert forall|id: AA2dTransactionId|
        tx.transaction.spec_id() == Some(id) && !s.by_hash.contains_key(tx.spec_hash()) && (
        !s.by_id.contains_key(id) ==> crate::pool_state::recorded(
            s.senders,
            tx.transaction.inner.sender,
        ) < usize::MAX) implies inv(#[trigger] added(s, tx, id, on_chain_nonce, base_fee)) by {
        crate::insertion::lemma_added_inv(s, tx, id, on_chain_nonce, base_fee);
    }
    assert forall|hash: B256|
        tx.transaction.spec_is_expiring_nonce() && tx.transaction.spec_expiring_nonce_hash()
            == Some(hash) && !s.by_hash.contains_key(tx.spec_hash()) && !s.expiring.contains_key(
            hash,
        ) && crate::pool_state::recorded(s.senders, tx.transaction.inner.sender)
            < usize::MAX implies inv(
        #[trigger] crate::insertion::added_expiring(s, tx, hash, base_fee),
    ) by {
        crate::insertion::lemma_added_expiring_inv(s, tx, hash, base_fee);
    }
}

proof fn lemma_added_in_line(
    s: PoolState,
    tx: Arc<ValidPoolTransaction>,
    id: AA2dTransactionId,
    on_chain_nonce: u64,
    base_fee: u64,
)
    requires
        coherent(s),
        tx.transaction.spec_id() == Some(id),
        on_chain_nonce <= id.nonce,
        in_step(s, id, on_chain_nonce),
    ensures
        coherent(added(s, tx, id, on_chain_nonce, base_fee)),
{
    let t = added(s, tx, id, on_chain_nonce, base_fee);
    let by_id = placed(s, tx, id, base_fee);
    let end = run_end(by_id, id.seq_id, on_chain_nonce as int);
    lemma_run_end_spans(by_id, id.seq_id, on_chain_nonce as int);
    assert(id == tx_id(id.seq_id, id.nonce));
    assert forall|seq: AASequenceId| #[trigger] in_line(t, seq) by {
        assert(in_line(s, seq));
        if seq == id.seq_id {
            if id.nonce == on_chain_nonce {
                assert(end > on_chain_nonce) by {
                    assert(by_id.contains_key(tx_id(id.seq_id, on_chain_nonce)));
                }
            }
        }
    }
}

// ---------------------------------------------------------------------------------------------
// Changes of nonces
// ---------------------------------------------------------------------------------------------

/// Two states agree on a sequence.
pub open spec fn agree_on(a: PoolState, b: PoolState, seq: AASequenceId) -> bool {
    &&& forall|n: u64|
        a.by_id.contains_key(#[trigger] tx_id(seq, n)) == b.by_id.contains_key(tx_id(seq, n)) && (
        a.by_id.contains_key(tx_id(seq, n)) ==> a.by_id[tx_id(seq, n)] == b.by_id[tx_id(seq, n)])
    &&& a.independent.contains_key(seq) == b.independent.contains_key(seq)
    &&& a.independent.contains_key(seq) ==> a.independent[seq] == b.independent[seq]
}

proof fn lemma_settled_elsewhere(
    s: PoolState,
    seq: AASequenceId,
    on_chain_nonce: u64,
    other: AASequenceId,
)
    requires
        seq != other,
    ensures
        agree_on(s, settled(s, seq, on_chain_nonce), other),
{
}

proof fn lemma_run_end_agrees(a: ById, b: ById, seq: AASequenceId, from: int)
    requires
        forall|n: u64|
            a.contains_key(#[trigger] tx_id(seq, n)) == b.contains_key(tx_id(seq, n)),
    ensures
        run_end(a, seq, from) == run_end(b, seq, from),
    decreases u64::MAX + 1 - from,
{
    if 0 <= from <= u64::MAX {
        assert(a.contains_key(tx_id(seq, from as u64)) == b.contains_key(tx_id(seq, from as u64)));
        lemma_run_end_agrees(a, b, seq, from + 1);
    }
}

proof fn lemma_settled_agrees(a: PoolState, b: PoolState, seq: AASequenceId, on_chain_nonce: u64)
    requires
        agree_on(a, b, seq),
    ensures
        agree_on(settled(a, seq, on_chain_nonce), settled(b, seq, on_chain_nonce), seq),
{
    lemma_run_end_agrees(a.by_id, b.by_id, seq, on_chain_nonce as int);
    assert(has_from(a.by_id, seq, on_chain_nonce) == has_from(b.by_id, seq, on_chain_nonce)) by {
        if has_from(a.by_id, seq, on_chain_nonce) {
            let n = choose|n: u64|
                on_chain_nonce <= n && a.by_id.contains_key(#[trigger] tx_id(seq, n));
            assert(b.by_id.contains_key(tx_id(seq, n)));
        }
        if has_from(b.by_id, seq, on_chain_nonce) {
            let n = choose|n: u64|
                on_chain_nonce <= n && b.by_id.contains_key(#[trigger] tx_id(seq, n));
            assert(a.by_id.contains_key(tx_id(seq, n)));
        }
    }
    assert(a.by_id.contains_key(tx_id(seq, on_chain_nonce)) == b.by_id.contains_key(
        tx_id(seq, on_chain_nonce),
    ));
}

/// Changes of other sequences leave a sequence as it is.
pub proof fn lemma_all_settled_elsewhere(
    s: PoolState,
    changes: Seq<(AASequenceId, u64)>,
    seq: AASequenceId,
)
    requires
        forall|k: int| 0 <= k < changes.len() ==> (#[trigger] changes[k]).0 != seq,
    ensures
        agree_on(s, all_settled(s, changes), seq),
    decreases changes.len(),
{
    if changes.len() > 0 {
        let front = changes.drop_last();
        assert forall|k: int| 0 <= k < front.len() implies (#[trigger] front[k]).0 != seq by {
            assert(changes[k] == front[k]);
        }
        lemma_all_settled_elsewhere(s, front, seq);
        assert(changes[changes.len() - 1] == changes.last());
        lemma_settled_elsewhere(all_settled(s, front), changes.last().0, changes.last().1, seq);
    }
}

/// Of several changes, that of a sequence is the one that counts for it.
pub proof fn lemma_all_settled_at(s: PoolState, changes: Seq<(AASequenceId, u64)>, k: int)
    requires
        ascending(changes),
        0 <= k < changes.len(),
    ensures
        agree_on(
            settled(s, changes[k].0, changes[k].1),
            all_settled(s, changes),
            changes[k].0,
        ),
    decreases changes.len(),
{
    let front = changes.drop_last();
    let last = changes.last();
    let seq = changes[k].0;
    assert forall|x: int, y: int|
        #![trigger front[x], front[y]]
        0 <= x < y < front.len() implies front[x].0.ord() < front[y].0.ord() by {
        assert(changes[x].0.ord() < changes[y].0.ord());
    }
    if k == changes.len() - 1 {
        assert forall|j: int| 0 <= j < front.len() implies (#[trigger] front[j]).0 != seq by {
            assert(changes[j].0.ord() < changes[k].0.ord());
        }
        lemma_all_settled_elsewhere(s, front, seq);
        lemma_settled_agrees(s, all_settled(s, front), seq, last.1);
    } else {
        assert(front[k] == changes[k]);
        lemma_all_settled_at(s, front, k);
        assert(changes[k].0.ord() < changes[changes.len() - 1].0.ord());
        lemma_settled_elsewhere(all_settled(s, front), last.0, last.1, seq);
    }
}

/// What removing identifiers does to one sequence.
pub proof fn lemma_without_ids_independent(
    s: PoolState,
    ids: Seq<AA2dTransactionId>,
    seq: AASequenceId,
)
    requires
        ids.no_duplicates(),
        forall|j: int| 0 <= j < ids.len() ==> s.by_id.contains_key(#[trigger] ids[j]),
    ensures
        ({
            let t = without_ids(s, ids);
            &&& t.independent.contains_key(seq) <==> s.independent.contains_key(seq)
                && !ids.contains(
                tx_id(seq, s.independent[seq].transaction.transaction.inner.nonce),
            )
            &&& t.independent.contains_key(seq) ==> t.independent[seq] == s.independent[seq]
        }),
    decreases ids.len(),
{
    if ids.len() > 0 {
        let front = ids.drop_last();
        let last = ids.last();
        let u = without_ids(s, front);
        assert forall|j: int| 0 <= j < front.len() implies s.by_id.contains_key(
            #[trigger] front[j],
        ) by {
            assert(ids[j] == front[j]);
        }
        lemma_without_ids_independent(s, front, seq);
        assert(ids[ids.len() - 1] == last);
        assert(!front.contains(last));
        lemma_without_ids_keeps(s, front, last);
        assert(u.by_id.contains_key(last));
        assert forall|id: AA2dTransactionId| #[trigger] ids.contains(id) <==> front.contains(id)
            || id == last by {
            if ids.contains(id) {
                let j = choose|j: int| 0 <= j < ids.len() && ids[j] == id;
                if j < front.len() {
                    assert(front[j] == id);
                }
            }
            if front.contains(id) {
                let j = choose|j: int| 0 <= j < front.len() && front[j] == id;
                assert(ids[j] == id);
            }
        }
        assert(last == tx_id(last.seq_id, last.nonce));
    }
}

/// An identifier that is removed is gone.
pub proof fn lemma_without_ids_members(
    s: PoolState,
    ids: Seq<AA2dTransactionId>,
    id: AA2dTransactionId,
)
    requires
        ids.contains(id),
    ensures
        !without_ids(s, ids).by_id.contains_key(id),
    decreases ids.len(),
{
    let front = ids.drop_last();
    if front.contains(id) {
        lemma_without_ids_members(s, front, id);
    } else {
        let j = choose|j: int| 0 <= j < ids.len() && ids[j] == id;
        if j < front.len() {
            assert(front[j] == id);
        }
    }
}

/// The mined transactions of a changed sequence are those below its nonce.
pub proof fn lemma_all_mined_at(
    by_id: ById,
    changes: Seq<(AASequenceId, u64)>,
    k: int,
    n: u64,
)
    requires
        ascending(changes),
        0 <= k < changes.len(),
        by_id.contains_key(tx_id(changes[k].0, n)),
    ensures
        all_mined(by_id, changes).contains(tx_id(changes[k].0, n)) <==> n < changes[k].1,
    decreases changes.len(),
{
    let id = tx_id(changes[k].0, n);
    let all = all_mined(by_id, changes);
    lemma_all_mined_members(by_id, changes);
    if all.contains(id) {
        let j = choose|j: int| 0 <= j < all.len() && all[j] == id;
        let m = choose|m: int|
            0 <= m < changes.len() && (#[trigger] changes[m]).0 == all[j].seq_id && all[j].nonce
                < changes[m].1;
        if m < k {
            assert(changes[m].0.ord() < changes[k].0.ord());
        }
        if k < m {
            assert(changes[k].0.ord() < changes[m].0.ord());
        }
    }
    if n < changes[k].1 {
        let front = changes.drop_last();
        let a = all_mined(by_id, front);
        let b = ids_between(by_id, changes.last().0, 0, changes.last().1 as int);
        if k == changes.len() - 1 {
            lemma_ids_between_members(by_id, changes[k].0, 0, changes[k].1 as int);
            assert(b.contains(id));
            let j = choose|j: int| 0 <= j < b.len() && b[j] == id;
            assert(all[a.len() + j] == id);
        } else {
            assert forall|x: int, y: int|
                #![trigger front[x], front[y]]
                0 <= x < y < front.len() implies front[x].0.ord() < front[y].0.ord() by {
                assert(changes[x].0.ord() < changes[y].0.ord());
            }
            assert(front[k] == changes[k]);
            lemma_all_mined_at(by_id, front, k, n);
            let j = choose|j: int| 0 <= j < a.len() && a[j] == id;
            assert(all[j] == id);
        }
    }
}

/// Changes of nonces on chain keep the pool coherent.
pub proof fn law_nonces_changed_coherent(s: PoolState, changes: Seq<(AASequenceId, u64)>)
    requires
        inv(s),
        coherent(s),
        ascending(changes),
    ensures
        coherent(nonces_changed(s, changes)),
        inv(nonces_changed(s, changes)),
{
    let u = all_settled(s, changes);
    let ids = all_mined(s.by_id, changes);
    let t = nonces_changed(s, changes);
    crate::updates::lemma_all_settled_same(s, changes);
    lemma_without_ids_inv(u, ids);
    lemma_all_mined_members(s.by_id, changes);
    assert forall|j: int| 0 <= j < ids.len() implies u.by_id.contains_key(#[trigger] ids[j]) by {
        assert(s.by_id.dom().contains(ids[j]));
        assert(u.by_id.dom().contains(ids[j]));
    }
    assert forall|seq: AASequenceId| #[trigger] in_line(t, seq) by {
        assert(in_line(s, seq));
        lemma_without_ids_independent(u, ids, seq);
        if t.independent.contains_key(seq) {
            let nonce = u.independent[seq].transaction.transaction.inner.nonce;
            if exists|k: int| 0 <= k < changes.len() && (#[trigger] changes[k]).0 == seq {
                let k = choose|k: int| 0 <= k < changes.len() && (#[trigger] changes[k]).0 == seq;
                let c = changes[k].1;
                lemma_all_settled_at(s, changes, k);
                let v = settled(s, seq, c);
                assert(agree_on(v, u, seq));
                if has_from(s.by_id, seq, c) {
                    assert(v.independent[seq] == s.by_id[tx_id(seq, c)].inner);
                    assert(inv_id(s, tx_id(seq, c))) by {
                        reveal(inv);
                    }
                    assert(nonce == c);
                    lemma_run_end_spans(s.by_id, seq, c as int);
                    assert(u.by_id.contains_key(tx_id(seq, c)));
                    assert(!ids.contains(tx_id(seq, c))) by {
                        lemma_all_mined_at(s.by_id, changes, k, c);
                    }
                    lemma_without_ids_keeps(u, ids, tx_id(seq, c));
                    assert forall|n: u64| t.by_id.contains_key(
                        #[trigger] tx_id(seq, n),
                    ) implies nonce <= n by {
                        if n < c {
                            lemma_without_ids_subset(u, ids, tx_id(seq, n));
                            assert(u.by_id.dom().contains(tx_id(seq, n)));
                            assert(s.by_id.dom().contains(tx_id(seq, n)));
                            lemma_all_mined_at(s.by_id, changes, k, n);
                            lemma_without_ids_members(u, ids, tx_id(seq, n));
                        }
                    }
                } else {
                    assert(s.independent.contains_key(seq));
                    assert(s.by_id.contains_key(tx_id(seq, nonce)));
                    assert(nonce < c);
                    lemma_all_mined_at(s.by_id, changes, k, nonce);
                }
            } else {
                lemma_all_settled_elsewhere(s, changes, seq);
                assert(s.by_id.contains_key(tx_id(seq, nonce)));
                assert(!ids.contains(tx_id(seq, nonce)));
                lemma_without_ids_keeps(u, ids, tx_id(seq, nonce));
                assert(u.by_id.contains_key(tx_id(seq, nonce)));
                assert forall|n: u64| t.by_id.contains_key(
                    #[trigger] tx_id(seq, n),
                ) implies nonce <= n by {
                    lemma_without_ids_subset(u, ids, tx_id(seq, n));
                    assert(s.by_id.contains_key(tx_id(seq, n)));
                }
            }
        }
    }
}

/// The transaction of an identifier has that identifier.
spec fn inv_id(s: PoolState, id: AA2dTransactionId) -> bool {
    s.by_id.contains_key(id) ==> s.by_id[id].inner.transaction.transaction.spec_id() == Some(id)
}

/// Removing identifiers adds none.
pub proof fn lemma_without_ids_subset(
    s: PoolState,
    ids: Seq<AA2dTransactionId>,
    id: AA2dTransactionId,
)
    ensures
        without_ids(s, ids).by_id.contains_key(id) ==> s.by_id.contains_key(id),
    decreases ids.len(),
{
    if ids.len() > 0 {
        lemma_without_ids_subset(s, ids.drop_last(), id);
    }
}

/// State updates of a block keep the pool coherent.
pub proof fn law_state_updates_coherent(
    s: PoolState,
    nonce_manager: Address,
    updates: Seq<AccountUpdate>,
    changes: Seq<(AASequenceId, u64)>,
)
    requires
        inv(s),
        coherent(s),
        ascending(changes),
        crate::ordered::entry_map(changes) == updated_nonces(s, nonce_manager, updates),
    ensures
        coherent(
            without_all_expiring(
                nonces_updated(s, nonce_manager, updates),
                updated_seen(s, nonce_manager, updates),
            ),
        ),
{
    crate::ordered::lemma_sorted_entries(changes);
    law_nonces_changed_coherent(s, changes);
    lemma_without_all_expiring_coherent(
        nonces_updated(s, nonce_manager, updates),
        updated_seen(s, nonce_manager, updates),
    );
}

proof fn lemma_without_all_expiring_coherent(s: PoolState, hashes: Seq<B256>)
    requires
        coherent(s),
    ensures
        coherent(without_all_expiring(s, hashes)),
    decreases hashes.len(),
{
    if hashes.len() > 0 {
        let t = without_all_expiring(s, hashes.drop_last());
        lemma_without_all_expiring_coherent(s, hashes.drop_last());
        lemma_coherent_same(t, without_expiring(t, hashes.last()));
    }
}

} // verus!
