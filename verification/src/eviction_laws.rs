//! Who has to go when the pool is over its limits.
use crate::counting::{lemma_count_bound, lemma_count_remove};
use crate::eviction::{
    first_expiring_out, first_out, pending_evicted, pending_trimmed, pending_victim, queued_evicted,
    queued_trimmed, victim_tx, within_limits, without_victim, Victim,
};
use crate::ids::AA2dTransactionId;
use crate::pending::PendingTransaction;
use crate::pool_laws::{
    law_first_expiring_out_exists, law_first_out_exists, law_queued_evicted, law_victim_counts,
};
use crate::pool_state::{
    inv, lemma_without_id_inv, pending_count, queued_count, with_pending, without_id, PoolState,
};
use crate::primitives::B256;
use crate::transaction::ValidPoolTransaction;
use std::sync::Arc;
use vstd::prelude::*;

verus! {

/// The transaction `a` has no better claim to stay than `b`: it pays less, or it pays the same and
/// was not submitted before it.
pub open spec fn yields_to(a: PendingTransaction, b: PendingTransaction) -> bool {
    ||| a.priority.rank() < b.priority.rank()
    ||| (a.priority.rank() == b.priority.rank() && a.submission_id >= b.submission_id)
}

/// The pending transactions are those with sequential nonces that are marked so and all with
/// expiring nonces; the queued ones are all others.
pub proof fn law_counts(s: PoolState)
    requires
        inv(s),
    ensures
        pending_count(s) + queued_count(s) == s.by_id.dom().len() + s.expiring.dom().len(),
        queued_count(s) == s.by_id.dom().filter(
            |id: AA2dTransactionId| !s.by_id[id].is_pending,
        ).len(),
{
    reveal(inv);
    let p = s.by_id.dom().filter(|id: AA2dTransactionId| s.by_id[id].is_pending);
    let q = s.by_id.dom().filter(|id: AA2dTransactionId| !s.by_id[id].is_pending);
    lemma_count_bound(s.by_id, with_pending(true));
    lemma_count_bound(s.by_id, with_pending(false));
    assert(crate::counting::chosen(s.by_id, with_pending(true)) =~= p);
    assert(crate::counting::chosen(s.by_id, with_pending(false)) =~= q);
    vstd::set_lib::lemma_set_disjoint_lens(p, q);
    assert(p + q =~= s.by_id.dom());
}

/// The next queued transaction to go yields to every other queued one. There is one unless none is
/// queued.
pub proof fn law_next_queued_out(s: PoolState)
    requires
        inv(s),
    ensures
        match first_out(s.by_id, false) {
            Some(id) => {
                &&& s.by_id.contains_key(id)
                &&& !s.by_id[id].is_pending
                &&& forall|other: AA2dTransactionId| #[trigger]
                    s.by_id.contains_key(other) && !s.by_id[other].is_pending ==> yields_to(
                        s.by_id[id].inner,
                        s.by_id[other].inner,
                    )
            },
            None => forall|other: AA2dTransactionId| #[trigger]
                s.by_id.contains_key(other) ==> s.by_id[other].is_pending,
        },
{
    assert(s.by_id.dom().finite()) by {
        reveal(inv);
    }
    law_first_out_exists(s.by_id, false);
    if first_out(s.by_id, false) is None {
        lemma_count_bound(s.by_id, with_pending(false));
        assert forall|other: AA2dTransactionId| #[trigger]
            s.by_id.contains_key(other) implies s.by_id[other].is_pending by {
            if !s.by_id[other].is_pending {
                assert(crate::counting::chosen(s.by_id, with_pending(false)).contains(other));
            }
        }
    }
}

/// The next pending transaction to go yields to every other pending one, whether its nonce is
/// sequential or expires. There is one unless none is pending.
pub proof fn law_next_pending_out(s: PoolState)
    requires
        inv(s),
    ensures
        match pending_victim(s) {
            Some(victim) => {
                let out = match victim {
                    Victim::Sequential(id) => s.by_id[id].inner,
                    Victim::Expiring(hash) => s.expiring[hash],
                };
                &&& match victim {
                    Victim::Sequential(id) => s.by_id.contains_key(id) && s.by_id[id].is_pending,
                    Victim::Expiring(hash) => s.expiring.contains_key(hash),
                }
                &&& victim_tx(s, victim) == out.transaction
                &&& forall|other: AA2dTransactionId| #[trigger]
                    s.by_id.contains_key(other) && s.by_id[other].is_pending ==> yields_to(
                        out,
                        s.by_id[other].inner,
                    )
                &&& forall|other: B256| #[trigger]
                    s.expiring.contains_key(other) ==> yields_to(out, s.expiring[other])
            },
            None => {
                &&& forall|other: AA2dTransactionId| #[trigger]
                    s.by_id.contains_key(other) ==> !s.by_id[other].is_pending
                &&& forall|other: B256| !#[trigger] s.expiring.contains_key(other)
            },
        },
{
    assert(s.by_id.dom().finite() && s.expiring.dom().finite()) by {
        reveal(inv);
    }
    law_first_out_exists(s.by_id, true);
    law_first_expiring_out_exists(s.expiring);
    if first_out(s.by_id, true) is None {
        lemma_count_bound(s.by_id, with_pending(true));
        assert forall|other: AA2dTransactionId| #[trigger]
            s.by_id.contains_key(other) implies !s.by_id[other].is_pending by {
            if s.by_id[other].is_pending {
                assert(crate::counting::chosen(s.by_id, with_pending(true)).contains(other));
            }
        }
    }
    if first_expiring_out(s.expiring) is None {
        assert forall|other: B256| !#[trigger] s.expiring.contains_key(other) by {
            if s.expiring.contains_key(other) {
                assert(s.expiring.dom().contains(other));
            }
        }
    }
}

/// The transaction stands under the identifier in the one pool and nowhere in the other.
pub open spec fn left_behind(s: PoolState, t: PoolState, id: AA2dTransactionId) -> bool {
    s.by_id.contains_key(id) && !t.by_id.contains_key(id)
}

/// Evicting `n` queued transactions takes out exactly `n`, or all if there are fewer. Each was
/// queued, and yields to every queued transaction that stays.
pub proof fn law_queued_evictions(s: PoolState, n: nat)
    requires
        inv(s),
    ensures
        ({
            let (t, out) = queued_evicted(s, n);
            &&& out.len() == if n <= queued_count(s) {
                n
            } else {
                queued_count(s)
            }
            &&& queued_count(t) + out.len() == queued_count(s)
            &&& forall|id: AA2dTransactionId| #[trigger]
                left_behind(s, t, id) ==> !s.by_id[id].is_pending && out.contains(
                    s.by_id[id].inner.transaction,
                )
            &&& forall|id: AA2dTransactionId, kept: AA2dTransactionId|
                #![trigger left_behind(s, t, id), t.by_id.contains_key(kept)]
                left_behind(s, t, id) && t.by_id.contains_key(kept) && !t.by_id[kept].is_pending
                    ==> yields_to(s.by_id[id].inner, t.by_id[kept].inner)
        }),
    decreases n,
{
    let (t, out) = queued_evicted(s, n);
    assert(s.by_id.dom().finite()) by {
        reveal(inv);
    }
    law_next_queued_out(s);
    law_first_out_exists(s.by_id, false);
    law_queued_evicted(s, n);
    if n > 0 {
        match first_out(s.by_id, false) {
            Some(first) => {
                let u = without_id(s, first);
                let rest = queued_evicted(u, (n - 1) as nat).1;
                lemma_without_id_inv(s, first);
                lemma_count_remove(s.by_id, with_pending(false), first);
                law_queued_evictions(u, (n - 1) as nat);
                law_queued_evicted(u, (n - 1) as nat);
                assert forall|id: AA2dTransactionId| #[trigger]
                    left_behind(s, t, id) implies !s.by_id[id].is_pending && out.contains(
                    s.by_id[id].inner.transaction,
                ) by {
                    if id == first {
                        assert(out[0] == s.by_id[id].inner.transaction);
                    } else {
                        assert(left_behind(u, t, id));
                        let tx = u.by_id[id].inner.transaction;
                        let k = choose|k: int| 0 <= k < rest.len() && rest[k] == tx;
                        assert(out[k + 1] == tx);
                    }
                }
                assert forall|id: AA2dTransactionId, kept: AA2dTransactionId|
                    #![trigger left_behind(s, t, id), t.by_id.contains_key(kept)]
                    left_behind(s, t, id) && t.by_id.contains_key(kept)
                        && !t.by_id[kept].is_pending implies yields_to(
                    s.by_id[id].inner,
                    t.by_id[kept].inner,
                ) by {
                    assert(s.by_id.contains_key(kept) && t.by_id[kept] == s.by_id[kept]);
                    if id != first {
                        assert(left_behind(u, t, id));
                    }
                }
            },
            None => {},
        }
    }
}

/// The transaction follows one in its sequence that is gone.
pub open spec fn follows_gone(s: PoolState, t: PoolState, id: AA2dTransactionId) -> bool {
    exists|gone: AA2dTransactionId| #[trigger]
        left_behind(s, t, gone) && gone.seq_id == id.seq_id && gone.nonce < id.nonce
}

/// Evicting `n` pending transactions takes out no more than `n`, and fewer only if none is pending
/// any more. Each was pending, and yields to every transaction that is still pending. A transaction
/// with a sequential nonce that stays is queued if one before it in its sequence is gone, and as it
/// was otherwise.
pub proof fn law_pending_evictions(s: PoolState, n: nat)
    requires
        inv(s),
    ensures
        ({
            let (t, out) = pending_evicted(s, n);
            &&& out.len() <= n
            &&& out.len() < n ==> pending_count(t) == 0
            &&& forall|id: AA2dTransactionId| #[trigger]
                left_behind(s, t, id) ==> s.by_id[id].is_pending && out.contains(
                    s.by_id[id].inner.transaction,
                )
            &&& forall|hash: B256| #[trigger]
                s.expiring.contains_key(hash) && !t.expiring.contains_key(hash) ==> out.contains(
                    s.expiring[hash].transaction,
                )
            &&& forall|id: AA2dTransactionId| #[trigger]
                t.by_id.contains_key(id) ==> s.by_id.contains_key(id) && t.by_id[id].inner
                    == s.by_id[id].inner && t.by_id[id].is_pending == (s.by_id[id].is_pending
                    && !follows_gone(s, t, id))
            &&& forall|hash: B256| #[trigger]
                t.expiring.contains_key(hash) ==> s.expiring.contains_key(hash) && t.expiring[hash]
                    == s.expiring[hash]
        }),
    decreases n,
{
    let (t, out) = pending_evicted(s, n);
    law_next_pending_out(s);
    assert(s.by_id.dom().finite() && s.expiring.dom().finite()) by {
        reveal(inv);
    }
    if n > 0 {
        match pending_victim(s) {
            Some(victim) => {
                let u = without_victim(s, victim);
                let rest = pending_evicted(u, (n - 1) as nat).1;
                law_victim_counts(s, victim);
                law_pending_evictions(u, (n - 1) as nat);
                assert(out[0] == victim_tx(s, victim));
                assert forall|k: int| 0 <= k < rest.len() implies out[k + 1] == #[trigger] rest[k] by {
                }
                assert forall|id: AA2dTransactionId| #[trigger]
                    left_behind(s, t, id) implies s.by_id[id].is_pending && out.contains(
                    s.by_id[id].inner.transaction,
                ) by {
                    if u.by_id.contains_key(id) {
                        assert(left_behind(u, t, id));
                        let tx = u.by_id[id].inner.transaction;
                        let k = choose|k: int| 0 <= k < rest.len() && rest[k] == tx;
                        assert(out[k + 1] == tx);
                    }
                }
                assert forall|hash: B256| #[trigger]
                    s.expiring.contains_key(hash) && !t.expiring.contains_key(
                        hash,
                    ) implies out.contains(s.expiring[hash].transaction) by {
                    if u.expiring.contains_key(hash) {
                        let tx = u.expiring[hash].transaction;
                        let k = choose|k: int| 0 <= k < rest.len() && rest[k] == tx;
                        assert(out[k + 1] == tx);
                    }
                }
                assert forall|id: AA2dTransactionId| #[trigger]
                    t.by_id.contains_key(id) implies s.by_id.contains_key(id) && t.by_id[id].inner
                    == s.by_id[id].inner && t.by_id[id].is_pending == (s.by_id[id].is_pending
                    && !follows_gone(s, t, id)) by {
                    assert(u.by_id.contains_key(id));
                    lemma_follows_gone(s, u, t, victim, id);
                }
            },
            None => {
                law_first_out_exists(s.by_id, true);
                law_first_expiring_out_exists(s.expiring);
                lemma_nothing_gone(s);
            },
        }
    } else {
        lemma_nothing_gone(s);
    }
}

proof fn lemma_nothing_gone(s: PoolState)
    ensures
        forall|id: AA2dTransactionId| !follows_gone(s, s, id),
{
}

proof fn lemma_follows_gone(
    s: PoolState,
    u: PoolState,
    t: PoolState,
    victim: Victim,
    id: AA2dTransactionId,
)
    requires
        pending_victim(s) == Some(victim),
        u == without_victim(s, victim),
        victim is Sequential ==> s.by_id.contains_key(victim->Sequential_0),
        forall|x: AA2dTransactionId| #[trigger]
            t.by_id.contains_key(x) ==> u.by_id.contains_key(x),
        t.by_id.contains_key(id),
        s.by_id.contains_key(id),
    ensures
        follows_gone(s, t, id) <==> follows_gone(u, t, id) || (victim is Sequential
            && victim->Sequential_0.seq_id == id.seq_id && victim->Sequential_0.nonce < id.nonce),
{
    if follows_gone(s, t, id) {
        let gone = choose|gone: AA2dTransactionId| #[trigger]
            left_behind(s, t, gone) && gone.seq_id == id.seq_id && gone.nonce < id.nonce;
        if u.by_id.contains_key(gone) {
            assert(left_behind(u, t, gone));
        }
    }
    if follows_gone(u, t, id) {
        let gone = choose|gone: AA2dTransactionId| #[trigger]
            left_behind(u, t, gone) && gone.seq_id == id.seq_id && gone.nonce < id.nonce;
        assert(left_behind(s, t, gone));
    }
    if victim is Sequential {
        let gone = victim->Sequential_0;
        assert(!u.by_id.contains_key(gone));
        if t.by_id.contains_key(gone) {
            assert(u.by_id.contains_key(gone));
        }
        assert(left_behind(s, t, gone));
    }
}

/// Every pending transaction that is evicted yields to every transaction that is still pending
/// afterwards.
pub proof fn law_evicted_yield_to_kept(s: PoolState, n: nat)
    requires
        inv(s),
    ensures
        ({
            let t = pending_evicted(s, n).0;
            &&& forall|id: AA2dTransactionId, kept: AA2dTransactionId|
                #![trigger left_behind(s, t, id), t.by_id.contains_key(kept)]
                left_behind(s, t, id) && t.by_id.contains_key(kept) && t.by_id[kept].is_pending
                    ==> yields_to(s.by_id[id].inner, t.by_id[kept].inner)
            &&& forall|id: AA2dTransactionId, kept: B256|
                #![trigger left_behind(s, t, id), t.expiring.contains_key(kept)]
                left_behind(s, t, id) && t.expiring.contains_key(kept) ==> yields_to(
                    s.by_id[id].inner,
                    t.expiring[kept],
                )
            &&& forall|hash: B256, kept: AA2dTransactionId|
                #![trigger s.expiring.contains_key(hash), t.by_id.contains_key(kept)]
                s.expiring.contains_key(hash) && !t.expiring.contains_key(hash)
                    && t.by_id.contains_key(kept) && t.by_id[kept].is_pending ==> yields_to(
                    s.expiring[hash],
                    t.by_id[kept].inner,
                )
            &&& forall|hash: B256, kept: B256|
                #![trigger s.expiring.contains_key(hash), t.expiring.contains_key(kept)]
                s.expiring.contains_key(hash) && !t.expiring.contains_key(hash)
                    && t.expiring.contains_key(kept) ==> yields_to(s.expiring[hash], t.expiring[kept])
        }),
    decreases n,
{
    let t = pending_evicted(s, n).0;
    law_next_pending_out(s);
    law_pending_evictions(s, n);
    if n > 0 {
        match pending_victim(s) {
            Some(victim) => {
                let u = without_victim(s, victim);
                law_victim_counts(s, victim);
                law_pending_evictions(u, (n - 1) as nat);
                law_evicted_yield_to_kept(u, (n - 1) as nat);
                assert forall|kept: AA2dTransactionId| #[trigger]
                    t.by_id.contains_key(kept) && t.by_id[kept].is_pending implies
                    s.by_id.contains_key(kept) && s.by_id[kept].is_pending && s.by_id[kept].inner
                    == t.by_id[kept].inner by {}
                assert forall|id: AA2dTransactionId| #[trigger]
                    left_behind(s, t, id) implies left_behind(u, t, id) && u.by_id[id].inner
                    == s.by_id[id].inner || (victim is Sequential && victim->Sequential_0 == id) by {
                    if u.by_id.contains_key(id) {
                        assert(left_behind(u, t, id));
                    }
                }
                assert forall|hash: B256| #[trigger]
                    s.expiring.contains_key(hash) && !t.expiring.contains_key(hash) implies (
                u.expiring.contains_key(hash) && u.expiring[hash] == s.expiring[hash]) || (
                victim is Expiring && victim->Expiring_0 == hash) by {}
            },
            None => {},
        }
    }
}

/// Nothing is evicted without need: while there are not too many pending transactions, exactly as
/// many queued ones go as there are too many of. While there are too many pending ones, no more of
/// them go at first than there are too many of.
pub proof fn law_no_needless_eviction(s: PoolState)
    requires
        inv(s),
    ensures
        ({
            let over = if queued_count(s) > s.config.queued_limit.max_txs {
                queued_count(s) - s.config.queued_limit.max_txs
            } else {
                0
            };
            let over_pending = if pending_count(s) > s.config.pending_limit.max_txs {
                pending_count(s) - s.config.pending_limit.max_txs
            } else {
                0
            };
            &&& queued_trimmed(s).1.len() == over
            &&& pending_trimmed(s).1.len() <= over_pending
            &&& over_pending == 0 ==> within_limits(s).1.len() == over
            &&& over_pending == 0 ==> within_limits(s).1 == queued_evicted(s, over as nat).1
            &&& within_limits(s).1.len() >= over
        }),
{
    let first = queued_trimmed(s).0;
    law_queued_evictions(s, crate::eviction::excess(queued_count(s), s.config.queued_limit.max_txs));
    law_queued_evicted(s, crate::eviction::excess(queued_count(s), s.config.queued_limit.max_txs));
    law_pending_evictions(
        s,
        crate::eviction::excess(pending_count(s), s.config.pending_limit.max_txs),
    );
    if pending_count(s) <= s.config.pending_limit.max_txs {
        assert(pending_trimmed(first) == (first, Seq::<Arc<ValidPoolTransaction>>::empty()));
        assert(queued_trimmed(first) == (first, Seq::<Arc<ValidPoolTransaction>>::empty()));
        assert(within_limits(s).1 =~= queued_trimmed(s).1);
    }
}

} // verus!
