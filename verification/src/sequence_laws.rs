//! What happens to the transactions of a sequence when nonces change and when others leave.
use crate::coherence::{
    agree_on, coherent, in_line, law_nonces_changed_coherent, law_removed_hashes_coherent,
    law_without_families_coherent, law_without_hashes_coherent,
    lemma_all_mined_at,
    lemma_all_settled_at, lemma_all_settled_elsewhere, lemma_without_ids_independent,
    lemma_without_ids_members,
};
use crate::counting::lemma_count_remove;
use crate::hardfork::TempoHardfork;
use crate::ids::{tx_id, AA2dTransactionId, AASequenceId};
use crate::insertion::{accepted, answers, bare, AddedTransaction};
use crate::insertion_laws::{no_gap, nonce_expires, sequence_of_tx};
use crate::invariants::sequential_only;
use crate::ordered::{ascending, OrdKey};
use crate::pool_state::{
    follows_any, found_ids, found_txs, held_as_expiring, held_once, ids_agree, inv,
    lemma_hash_has_one_id,
    lemma_own_hashes, lemma_run_end_spans,
    lemma_without_tx_hashes, in_use, next_submission, queued_between, recorded, run_end,
    sender_total, sent_by, txs_of, without_hashes, without_id, ById, PoolState,
};
use crate::primitives::{TxHash, B256, U256};
use crate::removal::{
    family, found_families, ids_after, lemma_ids_between_members, lemma_without_hashes,
    lemma_without_ids_keeps, removed_hashes, removed_with_gap, without_families, without_family,
};
use crate::transaction::ValidPoolTransaction;
use crate::updates::{
    all_mined, all_promoted, all_settled, capped_u64, has_from, lemma_all_mined_members,
    lemma_all_settled_same, nonces_changed, settled,
};
use std::sync::Arc;
use vstd::prelude::*;

verus! {

proof fn lemma_ids(s: PoolState)
    requires
        inv(s),
    ensures
        ids_agree(s),
        held_once(s),
{
    reveal(inv);
}

/// When the nonce on chain of a sequence changes, its transactions below the nonce leave and all
/// others stay; of these the ones up to the first gap from the nonce on chain are pending, and the
/// ones behind it are not.
pub proof fn law_nonce_change(
    s: PoolState,
    changes: Seq<(AASequenceId, u64)>,
    k: int,
    n: u64,
)
    requires
        inv(s),
        ascending(changes),
        0 <= k < changes.len(),
    ensures
        ({
            let (seq, on_chain_nonce) = changes[k];
            let t = nonces_changed(s, changes);
            let id = tx_id(seq, n);
            &&& t.by_id.contains_key(id) <==> s.by_id.contains_key(id) && on_chain_nonce <= n
            &&& t.by_id.contains_key(id) ==> t.by_id[id].inner == s.by_id[id].inner && (
            t.by_id[id].is_pending <==> no_gap(s.by_id, seq, on_chain_nonce as int, n + 1))
        }),
{
    let (seq, c) = changes[k];
    let u = all_settled(s, changes);
    let ids = all_mined(s.by_id, changes);
    let id = tx_id(seq, n);
    lemma_all_settled_at(s, changes, k);
    lemma_all_settled_same(s, changes);
    assert(u.by_id.dom().contains(id) == s.by_id.dom().contains(id));
    lemma_all_mined_members(s.by_id, changes);
    if s.by_id.contains_key(id) {
        lemma_all_mined_at(s.by_id, changes, k, n);
        if n < c {
            lemma_without_ids_members(u, ids, id);
        } else {
            lemma_without_ids_keeps(u, ids, id);
            assert(has_from(s.by_id, seq, c));
            lemma_run_end_spans(s.by_id, seq, c as int);
            let end = run_end(s.by_id, seq, c as int);
            let v = settled(s, seq, c);
            assert(v.by_id.contains_key(id));
            assert(agree_on(v, u, seq));
            assert(u.by_id[id] == v.by_id[id]);
            if n >= end {
                assert(!s.by_id.contains_key(tx_id(seq, end as u64)));
            }
        }
    } else {
        assert(!ids.contains(id));
        lemma_without_ids_keeps(u, ids, id);
    }
}

/// When the nonce on chain of a sequence changes, the transaction with that nonce is next in line,
/// and if there is none, nothing is.
pub proof fn law_next_in_line(s: PoolState, changes: Seq<(AASequenceId, u64)>, k: int)
    requires
        inv(s),
        coherent(s),
        ascending(changes),
        0 <= k < changes.len(),
    ensures
        ({
            let (seq, on_chain_nonce) = changes[k];
            let t = nonces_changed(s, changes);
            &&& t.independent.contains_key(seq) <==> s.by_id.contains_key(
                tx_id(seq, on_chain_nonce),
            )
            &&& t.independent.contains_key(seq) ==> t.independent[seq] == s.by_id[tx_id(
                seq,
                on_chain_nonce,
            )].inner
        }),
{
    let (seq, c) = changes[k];
    let t = nonces_changed(s, changes);
    law_nonces_changed_coherent(s, changes);
    assert(in_line(t, seq));
    if t.independent.contains_key(seq) {
        let m = t.independent[seq].transaction.transaction.inner.nonce;
        law_nonce_change(s, changes, k, m);
        assert(s.by_id.contains_key(tx_id(seq, c)));
        law_nonce_change(s, changes, k, c);
        assert(m == c);
    }
    if s.by_id.contains_key(tx_id(seq, c)) {
        let u = all_settled(s, changes);
        let ids = all_mined(s.by_id, changes);
        lemma_all_settled_at(s, changes, k);
        lemma_all_settled_same(s, changes);
        lemma_all_mined_members(s.by_id, changes);
        assert forall|j: int| 0 <= j < ids.len() implies u.by_id.contains_key(
            #[trigger] ids[j],
        ) by {
            assert(s.by_id.dom().contains(ids[j]));
            assert(u.by_id.dom().contains(ids[j]));
        }
        lemma_without_ids_independent(u, ids, seq);
        assert(has_from(s.by_id, seq, c));
        assert(agree_on(settled(s, seq, c), u, seq));
        assert(u.independent[seq] == s.by_id[tx_id(seq, c)].inner);
        lemma_all_mined_at(s.by_id, changes, k, c);
        lemma_ids(s);
        assert(s.by_id[tx_id(seq, c)].inner.transaction.transaction.spec_id() == Some(
            tx_id(seq, c),
        ));
    }
}

/// Sequences whose nonce does not change keep their transactions as they are.
pub proof fn law_other_sequences_stay(
    s: PoolState,
    changes: Seq<(AASequenceId, u64)>,
    seq: AASequenceId,
    n: u64,
)
    requires
        inv(s),
        ascending(changes),
        forall|k: int| 0 <= k < changes.len() ==> (#[trigger] changes[k]).0 != seq,
    ensures
        ({
            let t = nonces_changed(s, changes);
            &&& t.by_id.contains_key(tx_id(seq, n)) == s.by_id.contains_key(tx_id(seq, n))
            &&& s.by_id.contains_key(tx_id(seq, n)) ==> t.by_id[tx_id(seq, n)] == s.by_id[tx_id(
                seq,
                n,
            )]
            &&& t.independent.contains_key(seq) == s.independent.contains_key(seq)
            &&& s.independent.contains_key(seq) ==> t.independent[seq] == s.independent[seq]
        }),
{
    let u = all_settled(s, changes);
    let ids = all_mined(s.by_id, changes);
    lemma_all_settled_elsewhere(s, changes, seq);
    lemma_all_settled_same(s, changes);
    lemma_all_mined_members(s.by_id, changes);
    assert(!ids.contains(tx_id(seq, n)));
    lemma_without_ids_keeps(u, ids, tx_id(seq, n));
    assert forall|j: int| 0 <= j < ids.len() implies u.by_id.contains_key(#[trigger] ids[j]) by {
        assert(s.by_id.dom().contains(ids[j]));
        assert(u.by_id.dom().contains(ids[j]));
    }
    lemma_without_ids_independent(u, ids, seq);
    if s.independent.contains_key(seq) {
        let m = s.independent[seq].transaction.transaction.inner.nonce;
        assert(!ids.contains(tx_id(seq, m)));
    }
}

/// What is reported as mined when nonces change are the transactions of the pool below the nonce on
/// chain of their sequence, each once.
pub proof fn law_mined_are_below(
    s: PoolState,
    changes: Seq<(AASequenceId, u64)>,
    id: AA2dTransactionId,
)
    requires
        ascending(changes),
    ensures
        all_mined(s.by_id, changes).contains(id) <==> s.by_id.contains_key(id) && exists|k: int|
            0 <= k < changes.len() && (#[trigger] changes[k]).0 == id.seq_id && id.nonce
                < changes[k].1,
        all_mined(s.by_id, changes).no_duplicates(),
{
    let ids = all_mined(s.by_id, changes);
    lemma_all_mined_members(s.by_id, changes);
    if s.by_id.contains_key(id) && exists|k: int|
        0 <= k < changes.len() && (#[trigger] changes[k]).0 == id.seq_id && id.nonce
            < changes[k].1 {
        let k = choose|k: int|
            0 <= k < changes.len() && (#[trigger] changes[k]).0 == id.seq_id && id.nonce
                < changes[k].1;
        assert(id == tx_id(changes[k].0, id.nonce));
        lemma_all_mined_at(s.by_id, changes, k, id.nonce);
    }
}

/// The queued transaction with the given nonce is one that change `k` makes pending.
pub open spec fn promotes(
    s: PoolState,
    changes: Seq<(AASequenceId, u64)>,
    k: int,
    n: u64,
    tx: Arc<ValidPoolTransaction>,
) -> bool {
    &&& 0 <= k < changes.len()
    &&& changes[k].1 <= n
    &&& s.by_id.contains_key(tx_id(changes[k].0, n))
    &&& !s.by_id[tx_id(changes[k].0, n)].is_pending
    &&& s.by_id[tx_id(changes[k].0, n)].inner.transaction == tx
    &&& no_gap(s.by_id, changes[k].0, changes[k].1 as int, n + 1)
}

proof fn lemma_queued_between(
    by_id: ById,
    seq: AASequenceId,
    lo: int,
    hi: int,
    tx: Arc<ValidPoolTransaction>,
)
    requires
        0 <= lo,
        hi <= u64::MAX + 1,
    ensures
        bare(queued_between(by_id, seq, lo, hi)).contains(tx) <==> exists|n: u64|
            lo <= n < hi && !(#[trigger] by_id[tx_id(seq, n)]).is_pending && by_id[tx_id(
                seq,
                n,
            )].inner.transaction == tx,
    decreases hi - lo,
{
    if lo < hi {
        let below = queued_between(by_id, seq, lo, hi - 1);
        let all = queued_between(by_id, seq, lo, hi);
        let top = (hi - 1) as u64;
        lemma_queued_between(by_id, seq, lo, hi - 1, tx);
        if bare(all).contains(tx) {
            let j = choose|j: int| 0 <= j < bare(all).len() && bare(all)[j] == tx;
            if j < below.len() {
                assert(bare(below)[j] == tx);
            } else {
                assert(!by_id[tx_id(seq, top)].is_pending);
            }
        }
        if exists|n: u64|
            lo <= n < hi && !(#[trigger] by_id[tx_id(seq, n)]).is_pending && by_id[tx_id(
                seq,
                n,
            )].inner.transaction == tx {
            let n = choose|n: u64|
                lo <= n < hi && !(#[trigger] by_id[tx_id(seq, n)]).is_pending && by_id[tx_id(
                    seq,
                    n,
                )].inner.transaction == tx;
            if n < hi - 1 {
                assert(bare(below).contains(tx));
                let j = choose|j: int| 0 <= j < bare(below).len() && bare(below)[j] == tx;
                assert(bare(all)[j] == tx);
            } else {
                assert(bare(all)[below.len() as int] == tx);
            }
        }
    }
}

proof fn lemma_promoted_last(
    s: PoolState,
    changes: Seq<(AASequenceId, u64)>,
    tx: Arc<ValidPoolTransaction>,
)
    requires
        ascending(changes),
        changes.len() > 0,
    ensures
        ({
            let (seq, c) = changes.last();
            let by_id = all_settled(s, changes.drop_last()).by_id;
            let end = run_end(by_id, seq, c as int);
            bare(queued_between(by_id, seq, c as int, end)).contains(tx) <==> exists|n: u64|
                #[trigger]
                promotes(s, changes, changes.len() - 1, n, tx)
        }),
{
    let front = changes.drop_last();
    let last = changes.len() - 1;
    let (seq, c) = changes[last];
    let t = all_settled(s, front);
    assert forall|k: int| 0 <= k < front.len() implies (#[trigger] front[k]).0 != seq by {
        assert(changes[k].0.ord() < changes[last].0.ord());
    }
    lemma_all_settled_elsewhere(s, front, seq);
    lemma_run_end_spans(t.by_id, seq, c as int);
    let end = run_end(t.by_id, seq, c as int);
    lemma_queued_between(t.by_id, seq, c as int, end, tx);
    let b = bare(queued_between(t.by_id, seq, c as int, end));
    if b.contains(tx) {
        let n = choose|n: u64|
            c <= n < end && !(#[trigger] t.by_id[tx_id(seq, n)]).is_pending && t.by_id[tx_id(
                seq,
                n,
            )].inner.transaction == tx;
        assert(t.by_id.contains_key(tx_id(seq, n)));
        assert forall|m: u64| c <= m < n + 1 implies s.by_id.contains_key(
            #[trigger] tx_id(seq, m),
        ) by {
            assert(t.by_id.contains_key(tx_id(seq, m)));
        }
        assert(promotes(s, changes, last, n, tx));
    }
    if exists|n: u64| #[trigger] promotes(s, changes, last, n, tx) {
        let n = choose|n: u64| #[trigger] promotes(s, changes, last, n, tx);
        assert(t.by_id.contains_key(tx_id(seq, n)));
        if n >= end {
            assert(!t.by_id.contains_key(tx_id(seq, end as u64)));
            assert(s.by_id.contains_key(tx_id(seq, end as u64)));
        }
        assert(!t.by_id[tx_id(seq, n)].is_pending);
    }
}

/// What is reported as promoted when nonces change are the queued transactions from the nonce on
/// chain of their sequence up to its first gap, and no others.
pub proof fn law_promoted_are_unblocked(
    s: PoolState,
    changes: Seq<(AASequenceId, u64)>,
    tx: Arc<ValidPoolTransaction>,
)
    requires
        inv(s),
        ascending(changes),
    ensures
        all_promoted(s, changes).contains(tx) <==> exists|k: int, n: u64| #[trigger]
            promotes(s, changes, k, n, tx),
    decreases changes.len(),
{
    if changes.len() > 0 {
        let front = changes.drop_last();
        let last = changes.len() - 1;
        let (seq, c) = changes.last();
        assert forall|x: int, y: int|
            #![trigger front[x], front[y]]
            0 <= x < y < front.len() implies front[x].0.ord() < front[y].0.ord() by {
            assert(changes[x].0.ord() < changes[y].0.ord());
        }
        law_promoted_are_unblocked(s, front, tx);
        lemma_promoted_last(s, changes, tx);
        let by_id = all_settled(s, front).by_id;
        let a = all_promoted(s, front);
        let b = bare(queued_between(by_id, seq, c as int, run_end(by_id, seq, c as int)));
        let all = all_promoted(s, changes);
        assert(all == a + b);
        if all.contains(tx) {
            let j = choose|j: int| 0 <= j < all.len() && all[j] == tx;
            if j < a.len() {
                assert(a[j] == tx);
                let (k, n) = choose|k: int, n: u64| #[trigger] promotes(s, front, k, n, tx);
                assert(promotes(s, changes, k, n, tx));
            } else {
                assert(b[j - a.len()] == tx);
                let n = choose|n: u64| #[trigger] promotes(s, changes, last, n, tx);
                assert(promotes(s, changes, last, n, tx));
            }
        }
        if exists|k: int, n: u64| #[trigger] promotes(s, changes, k, n, tx) {
            let (k, n) = choose|k: int, n: u64| #[trigger] promotes(s, changes, k, n, tx);
            if k < last {
                assert(promotes(s, front, k, n, tx));
                let j = choose|j: int| 0 <= j < a.len() && a[j] == tx;
                assert(all[j] == tx);
            } else {
                assert(promotes(s, changes, last, n, tx));
                let j = choose|j: int| 0 <= j < b.len() && b[j] == tx;
                assert(all[a.len() + j] == tx);
            }
        }
    }
}

/// The pool holds a transaction of the sequence whose nonce is below the given one and whose hash is
/// among the given ones.
pub open spec fn loses_below(
    s: PoolState,
    hashes: Seq<TxHash>,
    seq: AASequenceId,
    m: u64,
    nonce: u64,
) -> bool {
    &&& m < nonce
    &&& s.by_id.contains_key(tx_id(seq, m))
    &&& hashes.contains(s.by_id[tx_id(seq, m)].inner.transaction.transaction.inner.hash)
}

spec fn hash_at(s: PoolState, id: AA2dTransactionId) -> TxHash {
    s.by_id[id].inner.transaction.transaction.inner.hash
}

spec fn id_of_hash(s: PoolState, hash: TxHash) -> Option<AA2dTransactionId> {
    s.by_hash[hash].transaction.spec_id()
}

spec fn expires(s: PoolState, hash: TxHash) -> bool {
    held_as_expiring(s, *s.by_hash[hash])
}

spec fn expiring_hash(s: PoolState, hash: TxHash) -> B256 {
    s.by_hash[hash].transaction.spec_expiring_nonce_hash()->0
}

spec fn gap_at(s: PoolState, hash: TxHash) -> PoolState {
    removed_with_gap(s, *s.by_hash[hash])
}

proof fn lemma_contains_split(hashes: Seq<TxHash>, h: TxHash)
    requires
        hashes.len() > 0,
    ensures
        hashes.contains(h) <==> hashes.drop_last().contains(h) || h == hashes.last(),
{
    let head = hashes.drop_last();
    if hashes.contains(h) {
        let j = choose|j: int| 0 <= j < hashes.len() && hashes[j] == h;
        if j < head.len() {
            assert(head[j] == h);
        }
    }
    if head.contains(h) {
        let j = choose|j: int| 0 <= j < head.len() && head[j] == h;
        assert(hashes[j] == h);
    }
    if h == hashes.last() {
        assert(hashes[hashes.len() - 1] == h);
    }
}

proof fn lemma_removed_ids(s: PoolState, hashes: Seq<TxHash>, id: AA2dTransactionId)
    requires
        inv(s),
    ensures
        ({
            let t = without_hashes(s, hashes);
            &&& t.by_id.contains_key(id) <==> s.by_id.contains_key(id) && !hashes.contains(
                hash_at(s, id),
            )
            &&& t.by_id.contains_key(id) ==> t.by_id[id] == s.by_id[id]
            &&& found_ids(s, hashes).contains(id) <==> s.by_id.contains_key(id)
                && hashes.contains(hash_at(s, id))
        }),
    decreases hashes.len(),
{
    if hashes.len() > 0 {
        let head = hashes.drop_last();
        let last = hashes.last();
        let t = without_hashes(s, head);
        let found = found_ids(s, head);
        let all = found_ids(s, hashes);
        lemma_removed_ids(s, head, id);
        lemma_without_hashes(s, head);
        lemma_own_hashes(t);
        lemma_ids(s);
        lemma_ids(t);
        lemma_contains_split(hashes, hash_at(s, id));
        if t.by_hash.contains_key(last) {
            lemma_without_tx_hashes(t, last);
            assert(t.by_hash[last].spec_hash() == last);
            if !expires(t, last) {
                let gone = id_of_hash(t, last)->0;
                assert(all == found.push(gone));
                if id == gone {
                    assert(all[found.len() as int] == id);
                    assert(hash_at(t, id) == last);
                } else {
                    if t.by_id.contains_key(id) && hash_at(t, id) == last {
                        lemma_hash_has_one_id(t, id, gone);
                    }
                    assert(found.contains(id) == all.contains(id)) by {
                        if found.contains(id) {
                            let j = choose|j: int| 0 <= j < found.len() && found[j] == id;
                            assert(all[j] == id);
                        }
                        if all.contains(id) {
                            let j = choose|j: int| 0 <= j < all.len() && all[j] == id;
                            assert(found[j] == id);
                        }
                    }
                }
            } else {
                let eh = expiring_hash(t, last);
                assert(t.expiring.contains_key(eh));
                if t.by_id.contains_key(id) {
                    assert(hash_at(t, id) != last);
                }
            }
        } else {
            if t.by_id.contains_key(id) {
                assert(t.by_hash.contains_key(hash_at(t, id)));
            }
        }
    }
}

/// Removing transactions by their hashes takes those out of their sequences and leaves all others.
/// Of these the ones that come after a removed one in its sequence are no longer pending; the rest
/// are pending as before.
pub proof fn law_removal_blocks_what_follows(
    s: PoolState,
    hashes: Seq<TxHash>,
    seq: AASequenceId,
    n: u64,
)
    requires
        inv(s),
    ensures
        ({
            let t = removed_hashes(s, hashes);
            let id = tx_id(seq, n);
            &&& t.by_id.contains_key(id) <==> s.by_id.contains_key(id) && !hashes.contains(
                s.by_id[id].inner.transaction.transaction.inner.hash,
            )
            &&& t.by_id.contains_key(id) ==> t.by_id[id].inner == s.by_id[id].inner && (
            t.by_id[id].is_pending <==> s.by_id[id].is_pending && !exists|m: u64| #[trigger]
                loses_below(s, hashes, seq, m, n))
        }),
{
    let id = tx_id(seq, n);
    let ids = found_ids(s, hashes);
    lemma_removed_ids(s, hashes, id);
    if exists|m: u64| #[trigger] loses_below(s, hashes, seq, m, n) {
        let m = choose|m: u64| #[trigger] loses_below(s, hashes, seq, m, n);
        lemma_removed_ids(s, hashes, tx_id(seq, m));
        let j = choose|j: int| 0 <= j < ids.len() && ids[j] == tx_id(seq, m);
        assert(ids[j].seq_id == id.seq_id && ids[j].nonce < id.nonce);
        assert(follows_any(id, ids));
    }
    if follows_any(id, ids) {
        let j = choose|j: int|
            0 <= j < ids.len() && (#[trigger] ids[j]).seq_id == id.seq_id && ids[j].nonce
                < id.nonce;
        lemma_removed_ids(s, hashes, ids[j]);
        assert(ids[j] == tx_id(seq, ids[j].nonce));
        assert(loses_below(s, hashes, seq, ids[j].nonce, n));
    }
}

/// What a removal hands out are the transactions of the given hashes that the pool holds.
pub proof fn law_removed_are_handed_out(
    s: PoolState,
    hashes: Seq<TxHash>,
    tx: Arc<ValidPoolTransaction>,
)
    requires
        inv(s),
    ensures
        found_txs(s, hashes).contains(tx) <==> hashes.contains(tx.transaction.inner.hash)
            && s.by_hash.contains_key(tx.transaction.inner.hash)
            && s.by_hash[tx.transaction.inner.hash] == tx,
    decreases hashes.len(),
{
    if hashes.len() > 0 {
        let head = hashes.drop_last();
        let last = hashes.last();
        let t = without_hashes(s, head);
        let found = found_txs(s, head);
        let all = found_txs(s, hashes);
        law_removed_are_handed_out(s, head, tx);
        lemma_without_hashes(s, head);
        lemma_contains_split(hashes, tx.transaction.inner.hash);
        if t.by_hash.contains_key(last) {
            lemma_without_tx_hashes(t, last);
            lemma_own_hashes(t);
            assert(t.by_hash[last] == s.by_hash[last]);
            assert(all == found.push(t.by_hash[last]));
            if found.contains(tx) {
                let j = choose|j: int| 0 <= j < found.len() && found[j] == tx;
                assert(all[j] == tx);
            }
            if all.contains(tx) {
                let j = choose|j: int| 0 <= j < all.len() && all[j] == tx;
                if j < found.len() {
                    assert(found[j] == tx);
                } else {
                    assert(tx == t.by_hash[last]);
                    assert(tx.spec_hash() == last);
                }
            }
            if tx == t.by_hash[last] {
                assert(all[found.len() as int] == tx);
            }
        }
    }
}

/// The pool holds a transaction of the sequence whose nonce is not above the given one and whose hash
/// is among the given ones.
pub open spec fn loses_up_to(
    s: PoolState,
    hashes: Seq<TxHash>,
    seq: AASequenceId,
    m: u64,
    nonce: u64,
) -> bool {
    &&& m <= nonce
    &&& s.by_id.contains_key(tx_id(seq, m))
    &&& hashes.contains(s.by_id[tx_id(seq, m)].inner.transaction.transaction.inner.hash)
}

spec fn family_at(s: PoolState, hash: TxHash) -> PoolState {
    without_family(s, *s.by_hash[hash])
}

proof fn lemma_family(s: PoolState, hash: TxHash, seq: AASequenceId, n: u64)
    requires
        inv(s),
        s.by_hash.contains_key(hash),
        !expires(s, hash),
    ensures
        ({
            let t = family_at(s, hash);
            let gone = id_of_hash(s, hash)->0;
            let id = tx_id(seq, n);
            &&& t.by_id.contains_key(id) <==> s.by_id.contains_key(id) && !(gone.seq_id == seq
                && gone.nonce <= n)
            &&& t.by_id.contains_key(id) ==> t.by_id[id] == s.by_id[id]
            &&& s.by_id.contains_key(gone)
            &&& hash_at(s, gone) == hash
        }),
{
    let gone = id_of_hash(s, hash)->0;
    let id = tx_id(seq, n);
    lemma_without_tx_hashes(s, hash);
    lemma_own_hashes(s);
    let t = gap_at(s, hash);
    let ids = ids_after(t.by_id, gone);
    lemma_ids_between_members(t.by_id, gone.seq_id, gone.nonce + 1, u64::MAX + 1);
    if ids.contains(id) {
        lemma_without_ids_members(t, ids, id);
    } else {
        lemma_without_ids_keeps(t, ids, id);
    }
}

proof fn lemma_expiring_family(s: PoolState, hash: TxHash, id: AA2dTransactionId)
    requires
        inv(s),
        sequential_only(s),
        s.by_hash.contains_key(hash),
        expires(s, hash),
    ensures
        family_at(s, hash).by_id.contains_key(id) == s.by_id.contains_key(id),
        s.by_id.contains_key(id) ==> family_at(s, hash).by_id[id] == s.by_id[id],
        s.by_id.contains_key(id) ==> hash_at(s, id) != hash,
{
    let t = gap_at(s, hash);
    lemma_without_tx_hashes(s, hash);
    lemma_own_hashes(s);
    lemma_ids(s);
    if id_of_hash(s, hash) is Some {
        let own = id_of_hash(s, hash)->0;
        let ids = ids_after(t.by_id, own);
        lemma_ids_between_members(t.by_id, own.seq_id, own.nonce + 1, u64::MAX + 1);
        if ids.contains(id) {
            assert(s.by_id.contains_key(id));
            assert(s.by_id[id].inner.transaction.transaction.spec_id() == Some(id));
            assert(s.by_id[id].inner.transaction.transaction.spec_is_expiring_nonce());
        }
        lemma_without_ids_keeps(t, ids, id);
    }
    if s.by_id.contains_key(id) {
        assert(s.expiring.contains_key(expiring_hash(s, hash)));
    }
}

spec fn lost(s: PoolState, hashes: Seq<TxHash>, id: AA2dTransactionId) -> bool {
    exists|m: u64| #[trigger] loses_up_to(s, hashes, id.seq_id, m, id.nonce)
}

proof fn lemma_families(s: PoolState, hashes: Seq<TxHash>)
    requires
        inv(s),
        coherent(s),
        sequential_only(s),
    ensures
        sequential_only(without_families(s, hashes)),
        forall|id: AA2dTransactionId| #[trigger]
            without_families(s, hashes).by_id.contains_key(id) <==> s.by_id.contains_key(id)
                && !lost(s, hashes, id),
        forall|id: AA2dTransactionId| #[trigger]
            without_families(s, hashes).by_id.contains_key(id) ==> without_families(
                s,
                hashes,
            ).by_id[id] == s.by_id[id],
    decreases hashes.len(),
{
    let u = without_families(s, hashes);
    if hashes.len() > 0 {
        let head = hashes.drop_last();
        let last = hashes.last();
        let t = without_families(s, head);
        lemma_families(s, head);
        law_without_families_coherent(s, head);
        lemma_own_hashes(t);
        lemma_ids(s);
        lemma_ids(t);
        assert forall|id: AA2dTransactionId| true implies #[trigger] u.by_id.contains_key(id) == (
        s.by_id.contains_key(id) && !lost(s, hashes, id)) && (u.by_id.contains_key(id)
            ==> u.by_id[id] == s.by_id[id]) by {
            let seq = id.seq_id;
            assert(id == tx_id(seq, id.nonce));
            if lost(s, head, id) {
                let m = choose|m: u64| #[trigger] loses_up_to(s, head, seq, m, id.nonce);
                lemma_contains_split(hashes, hash_at(s, tx_id(seq, m)));
                assert(loses_up_to(s, hashes, seq, m, id.nonce));
            }
            if lost(s, hashes, id) && !lost(s, head, id) {
                let m = choose|m: u64| #[trigger] loses_up_to(s, hashes, seq, m, id.nonce);
                lemma_contains_split(hashes, hash_at(s, tx_id(seq, m)));
                assert(!loses_up_to(s, head, seq, m, id.nonce));
                assert(hash_at(s, tx_id(seq, m)) == last);
                if lost(s, head, tx_id(seq, m)) {
                    let l = choose|l: u64| #[trigger] loses_up_to(s, head, seq, l, m);
                    assert(loses_up_to(s, head, seq, l, id.nonce));
                }
                assert(t.by_id.contains_key(tx_id(seq, m)));
                assert(t.by_hash.contains_key(last));
                if expires(t, last) {
                    lemma_expiring_family(t, last, tx_id(seq, m));
                } else {
                    lemma_family(t, last, seq, id.nonce);
                    lemma_hash_has_one_id(t, tx_id(seq, m), id_of_hash(t, last)->0);
                }
            }
            if t.by_hash.contains_key(last) {
                if expires(t, last) {
                    lemma_expiring_family(t, last, id);
                } else {
                    lemma_family(t, last, seq, id.nonce);
                    let gone = id_of_hash(t, last)->0;
                    if gone.seq_id == seq && gone.nonce <= id.nonce {
                        assert(gone == tx_id(seq, gone.nonce));
                        lemma_contains_split(hashes, last);
                        assert(loses_up_to(s, hashes, seq, gone.nonce, id.nonce));
                    }
                }
            }
        }
    } else {
        assert forall|id: AA2dTransactionId| !lost(s, hashes, id) by {
            if lost(s, hashes, id) {
                let m = choose|m: u64| #[trigger] loses_up_to(s, hashes, id.seq_id, m, id.nonce);
                assert(false);
            }
        }
    }
}

/// Removing transactions with their descendants takes out, of each sequence, the ones from the first
/// removed one on, and leaves all others as they are.
pub proof fn law_descendants_leave(
    s: PoolState,
    hashes: Seq<TxHash>,
    seq: AASequenceId,
    n: u64,
)
    requires
        inv(s),
        coherent(s),
        sequential_only(s),
    ensures
        ({
            let t = without_families(s, hashes);
            let id = tx_id(seq, n);
            &&& t.by_id.contains_key(id) <==> s.by_id.contains_key(id) && !exists|m: u64| #[trigger]
                loses_up_to(s, hashes, seq, m, n)
            &&& t.by_id.contains_key(id) ==> t.by_id[id] == s.by_id[id]
        }),
{
    lemma_families(s, hashes);
    if exists|m: u64| #[trigger] loses_up_to(s, hashes, seq, m, n) {
        let m = choose|m: u64| #[trigger] loses_up_to(s, hashes, seq, m, n);
        assert(loses_up_to(s, hashes, tx_id(seq, n).seq_id, m, tx_id(seq, n).nonce));
    }
    if lost(s, hashes, tx_id(seq, n)) {
        let m = choose|m: u64| #[trigger]
            loses_up_to(s, hashes, tx_id(seq, n).seq_id, m, tx_id(seq, n).nonce);
        assert(loses_up_to(s, hashes, seq, m, n));
    }
}

spec fn family_list(s: PoolState, hash: TxHash) -> Seq<Arc<ValidPoolTransaction>> {
    family(s, s.by_hash[hash])
}

/// A transaction of the pool is in the family of a hash exactly if it leaves with it.
proof fn lemma_family_list(s: PoolState, hash: TxHash, id: AA2dTransactionId)
    requires
        inv(s),
        sequential_only(s),
        s.by_hash.contains_key(hash),
        s.by_id.contains_key(id),
    ensures
        family_list(s, hash).contains(s.by_id[id].inner.transaction) <==> !family_at(
            s,
            hash,
        ).by_id.contains_key(id),
{
    let all = family_list(s, hash);
    let tx = s.by_id[id].inner.transaction;
    let t = gap_at(s, hash);
    lemma_ids(s);
    lemma_own_hashes(s);
    lemma_without_tx_hashes(s, hash);
    assert(all[0] == s.by_hash[hash]);
    let own = id_of_hash(s, hash)->0;
    let ids = ids_after(t.by_id, own);
    lemma_ids_between_members(t.by_id, own.seq_id, own.nonce + 1, u64::MAX + 1);
    if expires(s, hash) {
        lemma_expiring_family(s, hash, id);
        if ids.len() > 0 {
            let other = ids[0];
            assert(s.by_id.contains_key(other));
            assert(s.by_id[other].inner.transaction.transaction.spec_id() == Some(other));
            assert(s.by_id[other].inner.transaction.transaction.spec_is_expiring_nonce());
        }
        if all.contains(tx) {
            let j = choose|j: int| 0 <= j < all.len() && all[j] == tx;
            assert(j == 0);
            assert(hash_at(s, id) == hash);
        }
    } else {
        lemma_family(s, hash, id.seq_id, id.nonce);
        assert(id == tx_id(id.seq_id, id.nonce));
        let rest = txs_of(t.by_id, ids);
        assert(all == seq![s.by_hash[hash]] + rest);
        if all.contains(tx) {
            let j = choose|j: int| 0 <= j < all.len() && all[j] == tx;
            if j == 0 {
                lemma_hash_has_one_id(s, id, own);
            } else {
                let other = ids[j - 1];
                assert(rest[j - 1] == t.by_id[other].inner.transaction);
                assert(s.by_id.contains_key(other));
                assert(s.by_id[other].inner.transaction == tx);
                lemma_hash_has_one_id(s, id, other);
            }
        }
        if !family_at(s, hash).by_id.contains_key(id) {
            if id == own {
                assert(all[0] == tx);
            } else {
                assert(t.by_id.contains_key(tx_id(own.seq_id, id.nonce)));
                assert(ids.contains(id));
                let k = choose|k: int| 0 <= k < ids.len() && ids[k] == id;
                assert(rest[k] == tx);
                assert(all[k + 1] == tx);
            }
        }
    }
}

/// Removing transactions with their descendants hands out those that leave their sequence, and no
/// other of any sequence.
pub proof fn law_descendants_are_handed_out(
    s: PoolState,
    hashes: Seq<TxHash>,
    id: AA2dTransactionId,
)
    requires
        inv(s),
        coherent(s),
        sequential_only(s),
        s.by_id.contains_key(id),
    ensures
        found_families(s, hashes).contains(s.by_id[id].inner.transaction) <==> !without_families(
            s,
            hashes,
        ).by_id.contains_key(id),
    decreases hashes.len(),
{
    if hashes.len() > 0 {
        let head = hashes.drop_last();
        let last = hashes.last();
        let t = without_families(s, head);
        let tx = s.by_id[id].inner.transaction;
        let found = found_families(s, head);
        let all = found_families(s, hashes);
        law_descendants_are_handed_out(s, head, id);
        lemma_families(s, head);
        lemma_families(s, hashes);
        law_without_families_coherent(s, head);
        if t.by_hash.contains_key(last) {
            let more = family_list(t, last);
            assert(all == found + more);
            if found.contains(tx) {
                let j = choose|j: int| 0 <= j < found.len() && found[j] == tx;
                assert(all[j] == tx);
            }
            if more.contains(tx) {
                let j = choose|j: int| 0 <= j < more.len() && more[j] == tx;
                assert(all[found.len() + j] == tx);
            }
            if all.contains(tx) {
                let j = choose|j: int| 0 <= j < all.len() && all[j] == tx;
                if j < found.len() {
                    assert(found[j] == tx);
                } else {
                    assert(more[j - found.len()] == tx);
                }
            }
            if t.by_id.contains_key(id) {
                lemma_family_list(t, last, id);
            } else {
                assert(!without_families(s, hashes).by_id.contains_key(id)) by {
                    assert(lost(s, head, id));
                    let m = choose|m: u64| #[trigger]
                        loses_up_to(s, head, id.seq_id, m, id.nonce);
                    lemma_contains_split(hashes, hash_at(s, tx_id(id.seq_id, m)));
                    assert(loses_up_to(s, hashes, id.seq_id, m, id.nonce));
                }
            }
        }
    }
}

/// The transactions of identifiers are those that the pool holds under them, in the same order.
pub proof fn law_transactions_of_identifiers(by_id: ById, ids: Seq<AA2dTransactionId>, i: int)
    requires
        0 <= i < ids.len(),
    ensures
        txs_of(by_id, ids).len() == ids.len(),
        txs_of(by_id, ids)[i] == by_id[ids[i]].inner.transaction,
{
}

/// What a new transaction makes pending is announced: the transaction itself if it is pending, and
/// then what it promotes, in that order. A queued one announces nothing.
pub proof fn law_pending_are_announced(
    s: PoolState,
    tx: Arc<ValidPoolTransaction>,
    on_chain_nonce: u64,
    hardfork: TempoHardfork,
    base_fee: u64,
    answer: AddedTransaction,
)
    requires
        answers(s, tx, on_chain_nonce, hardfork, base_fee, answer),
    ensures
        ({
            let t = accepted(s, tx, on_chain_nonce, hardfork, base_fee);
            match answer {
                AddedTransaction::Pending(pending) => bare(t.new_pending) == bare(
                    s.new_pending,
                ).push(tx) + pending.promoted@,
                AddedTransaction::Parked { .. } => t.new_pending == s.new_pending,
            }
        }),
{
    let t = accepted(s, tx, on_chain_nonce, hardfork, base_fee);
    match answer {
        AddedTransaction::Pending(pending) => {
            assert(bare(t.new_pending) =~= bare(s.new_pending).push(tx) + pending.promoted@);
        },
        _ => {},
    }
}

/// The slot that holds the nonce of a sequence is on record once a transaction of the sequence is in
/// the pool, unless it is the sequence of the account itself, which has no slot. The slots of other
/// sequences stay on record.
pub proof fn law_slot_is_on_record(
    s: PoolState,
    tx: Arc<ValidPoolTransaction>,
    on_chain_nonce: u64,
    hardfork: TempoHardfork,
    base_fee: u64,
    slot: U256,
)
    requires
        tx.transaction.inner.aa is Some,
    ensures
        ({
            let t = accepted(s, tx, on_chain_nonce, hardfork, base_fee);
            let own = tx.transaction.inner.nonce_slot;
            let sequential = !nonce_expires(tx.transaction, hardfork);
            &&& sequential && tx.transaction.inner.aa->0.nonce_key@ != 0
                ==> t.sequence_slots.contains_key(own) && t.sequence_slots[own] == sequence_of_tx(
                tx.transaction,
            )
            &&& !sequential || tx.transaction.inner.aa->0.nonce_key@ == 0 || slot != own
                ==> t.sequence_slots.contains_key(slot) == s.sequence_slots.contains_key(slot) && (
            s.sequence_slots.contains_key(slot) ==> t.sequence_slots[slot]
                == s.sequence_slots[slot])
        }),
{
}

/// The slot of a sequence is forgotten with its last transaction, and not before. The sender counts
/// one transaction less.
pub proof fn law_slot_is_forgotten_last(s: PoolState, id: AA2dTransactionId, other: u64)
    requires
        inv(s),
        s.by_id.contains_key(id),
    ensures
        ({
            let t = without_id(s, id);
            let tx = s.by_id[id].inner.transaction.transaction;
            let sender = tx.inner.sender;
            &&& other != id.nonce && s.by_id.contains_key(tx_id(id.seq_id, other))
                ==> t.sequence_slots == s.sequence_slots
            &&& (forall|n: u64|
                s.by_id.contains_key(#[trigger] tx_id(id.seq_id, n)) ==> n == id.nonce)
                ==> t.sequence_slots == s.sequence_slots.remove(tx.inner.nonce_slot)
            &&& s.senders.contains_key(sender)
            &&& s.senders[sender] > 1 ==> t.senders == s.senders.insert(
                sender,
                (s.senders[sender] - 1) as usize,
            )
            &&& s.senders[sender] == 1 ==> t.senders == s.senders.remove(sender)
        }),
{
    reveal(inv);
    let t = without_id(s, id);
    let sender = s.by_id[id].inner.transaction.transaction.inner.sender;
    assert(s.by_id[id].inner.transaction.transaction.spec_id() == Some(id));
    if other != id.nonce && s.by_id.contains_key(tx_id(id.seq_id, other)) {
        assert(t.by_id.contains_key(tx_id(id.seq_id, other)));
    }
    lemma_count_remove(s.by_id, sent_by(sender), id);
    assert(recorded(s.senders, sender) == sender_total(s, sender));
    if in_use(t.by_id, id.seq_id) {
        let n = choose|n: u64| t.by_id.contains_key(#[trigger] tx_id(id.seq_id, n));
        assert(s.by_id.contains_key(tx_id(id.seq_id, n)));
    }
}

/// A slot holds the nonce as far as it fits in 64 bits, and the largest such nonce beyond.
pub proof fn law_nonce_of_a_slot(n: int)
    requires
        0 <= n,
    ensures
        n <= 0xffff_ffff_ffff_ffff ==> capped_u64(n) == n,
        n > 0xffff_ffff_ffff_ffff ==> capped_u64(n) == 0xffff_ffff_ffff_ffff,
{
}

/// Every transaction that is taken uses up one submission number, so that the next one is submitted
/// later; the numbers start over once they are used up. A refusal that uses one up counts as well.
pub proof fn law_submissions_count_up(
    s: PoolState,
    tx: Arc<ValidPoolTransaction>,
    on_chain_nonce: u64,
    hardfork: TempoHardfork,
    base_fee: u64,
)
    ensures
        s.submission_id < u64::MAX ==> accepted(
            s,
            tx,
            on_chain_nonce,
            hardfork,
            base_fee,
        ).submission_id == s.submission_id + 1,
        s.submission_id == u64::MAX ==> accepted(
            s,
            tx,
            on_chain_nonce,
            hardfork,
            base_fee,
        ).submission_id == 0,
        s.submission_id < u64::MAX ==> next_submission(s).submission_id == s.submission_id + 1,
        next_submission(s) == (PoolState {
            submission_id: next_submission(s).submission_id,
            ..s
        }),
{
}

spec fn next_hash(s: PoolState, seq: AASequenceId) -> TxHash {
    s.independent[seq].transaction.transaction.inner.hash
}

proof fn lemma_next_stays(s: PoolState, hashes: Seq<TxHash>, seq: AASequenceId)
    requires
        inv(s),
        coherent(s),
        s.independent.contains_key(seq),
        !hashes.contains(next_hash(s, seq)),
    ensures
        without_hashes(s, hashes).independent.contains_key(seq),
        without_hashes(s, hashes).independent[seq] == s.independent[seq],
    decreases hashes.len(),
{
    if hashes.len() > 0 {
        let head = hashes.drop_last();
        let last = hashes.last();
        let t = without_hashes(s, head);
        lemma_contains_split(hashes, next_hash(s, seq));
        lemma_next_stays(s, head, seq);
        law_without_hashes_coherent(s, head);
        lemma_without_hashes(s, head);
        lemma_own_hashes(t);
        if t.by_hash.contains_key(last) {
            lemma_without_tx_hashes(t, last);
            assert(in_line(t, seq));
            if !expires(t, last) {
                let gone = id_of_hash(t, last)->0;
                let nonce = t.independent[seq].transaction.transaction.inner.nonce;
                if gone.seq_id == seq && gone.nonce == nonce {
                    assert(gone == tx_id(seq, nonce));
                    assert(hash_at(t, gone) == last);
                    assert(next_hash(t, seq) == last);
                }
            }
        }
    }
}

/// What is next in line for a sequence stays so when other transactions are removed, and nothing is
/// next in line once it is removed itself.
pub proof fn law_removal_and_next_in_line(s: PoolState, hashes: Seq<TxHash>, seq: AASequenceId)
    requires
        inv(s),
        coherent(s),
    ensures
        ({
            let t = removed_hashes(s, hashes);
            &&& t.independent.contains_key(seq) <==> s.independent.contains_key(seq)
                && !hashes.contains(s.independent[seq].transaction.transaction.inner.hash)
            &&& t.independent.contains_key(seq) ==> t.independent[seq] == s.independent[seq]
        }),
{
    let t = removed_hashes(s, hashes);
    if s.independent.contains_key(seq) && !hashes.contains(next_hash(s, seq)) {
        lemma_next_stays(s, hashes, seq);
    }
    if t.independent.contains_key(seq) {
        law_removed_hashes_coherent(s, hashes);
        assert(in_line(t, seq));
        let nonce = t.independent[seq].transaction.transaction.inner.nonce;
        law_removal_blocks_what_follows(s, hashes, seq, nonce);
        lemma_next_came(s, hashes, seq);
    }
}

proof fn lemma_next_came(s: PoolState, hashes: Seq<TxHash>, seq: AASequenceId)
    requires
        without_hashes(s, hashes).independent.contains_key(seq),
    ensures
        s.independent.contains_key(seq),
        s.independent[seq] == without_hashes(s, hashes).independent[seq],
    decreases hashes.len(),
{
    if hashes.len() > 0 {
        lemma_next_came(s, hashes.drop_last(), seq);
    }
}

} // verus!
