//! What holds of the pool across its operations.
use crate::counting::{
    chosen, count, lemma_count_bound, lemma_count_le, lemma_count_remove, lemma_count_zero,
    lemma_least_exists,
};
use crate::eviction::{
    excess, first_expiring_out, first_out, is_first_expiring_out, is_first_out, pending_evicted,
    pending_trimmed, pending_victim, queued_evicted, queued_trimmed, within_limits, without_victim,
    Victim,
};
use crate::ids::AA2dTransactionId;
use crate::ordered::OrdKey;
use crate::pending::PendingTransaction;
use crate::pool_state::{
    inv, lemma_new_marks_keep_inv, lemma_without_expiring_inv, lemma_without_id_inv, pending_count,
    queued_count, same_txs, with_pending, without_id, ById, PoolState,
};
use crate::primitives::B256;
use crate::transaction::ValidPoolTransaction;
use std::sync::Arc;
use vstd::prelude::*;

verus! {

/// If any transaction is pending, or queued, one of them is the first to go.
pub proof fn law_first_out_exists(by_id: ById, pending: bool)
    requires
        by_id.dom().finite(),
    ensures
        first_out(by_id, pending) is None <==> count(by_id, with_pending(pending)) == 0,
        first_out(by_id, pending) is Some ==> is_first_out(
            by_id,
            pending,
            first_out(by_id, pending)->0,
        ),
{
    let p = with_pending(pending);
    lemma_count_bound(by_id, p);
    if count(by_id, p) > 0 {
        let before = |a: AA2dTransactionId, b: AA2dTransactionId|
            by_id[a].inner.worse(by_id[b].inner) || (by_id[a].inner.ties(by_id[b].inner) && a.ord()
                < b.ord());
        assert forall|a: AA2dTransactionId, b: AA2dTransactionId|
            a != b implies #[trigger] before(a, b) || before(b, a) by {
            if a.ord() == b.ord() {
                a.ord_injective(b);
            }
        }
        let least = lemma_least_exists(chosen(by_id, p), before);
        assert(is_first_out(by_id, pending, least)) by {
            assert forall|other: AA2dTransactionId| #[trigger]
                by_id.contains_key(other) && by_id[other].is_pending == pending && other
                    != least implies by_id[least].inner.worse(by_id[other].inner) || (
            by_id[least].inner.ties(by_id[other].inner) && least.ord() < other.ord()) by {
                assert(chosen(by_id, p).contains(other));
                assert(before(least, other));
            }
        }
    } else {
        lemma_count_zero(by_id, p);
    }
}

/// If any transaction has an expiring nonce, one of them is the first to go.
pub proof fn law_first_expiring_out_exists(expiring: Map<B256, PendingTransaction>)
    requires
        expiring.dom().finite(),
    ensures
        first_expiring_out(expiring) is None <==> expiring.dom().len() == 0,
        first_expiring_out(expiring) is Some ==> is_first_expiring_out(
            expiring,
            first_expiring_out(expiring)->0,
        ),
{
    if expiring.dom().len() > 0 {
        let before = |a: B256, b: B256|
            expiring[a].worse(expiring[b]) || (expiring[a].ties(expiring[b]) && a.ord() < b.ord());
        assert forall|a: B256, b: B256| a != b implies #[trigger] before(a, b) || before(b, a) by {
            if a.ord() == b.ord() {
                a.ord_injective(b);
            }
        }
        let least = lemma_least_exists(expiring.dom(), before);
        assert(is_first_expiring_out(expiring, least)) by {
            assert forall|other: B256| #[trigger] expiring.contains_key(other) && other
                != least implies expiring[least].worse(expiring[other]) || (expiring[least].ties(
                expiring[other],
            ) && least.ord() < other.ord()) by {
                assert(expiring.dom().contains(other));
                assert(before(least, other));
            }
        }
    } else {
        assert(expiring.dom() =~= Set::empty());
        assert forall|h: B256| !is_first_expiring_out(expiring, h) by {
            assert(!expiring.dom().contains(h));
        }
    }
}

/// The pending transaction that is evicted has the lowest priority of all pending transactions,
/// and among those of that priority it was submitted last.
pub proof fn law_victim_is_worst(s: PoolState)
    requires
        inv(s),
        pending_victim(s) is Some,
    ensures
        ({
            let victim = match pending_victim(s)->0 {
                Victim::Sequential(id) => s.by_id[id].inner,
                Victim::Expiring(hash) => s.expiring[hash],
            };
            &&& forall|id: AA2dTransactionId| #[trigger]
                s.by_id.contains_key(id) && s.by_id[id].is_pending ==> victim.worse(
                    s.by_id[id].inner,
                ) || victim.ties(s.by_id[id].inner)
            &&& forall|hash: B256| #[trigger]
                s.expiring.contains_key(hash) ==> victim.worse(s.expiring[hash]) || victim.ties(
                    s.expiring[hash],
                )
        }),
{
    reveal(inv);
    law_first_out_exists(s.by_id, true);
    law_first_expiring_out_exists(s.expiring);
    lemma_count_zero(s.by_id, with_pending(true));
    if first_expiring_out(s.expiring) is None {
        assert(s.expiring.dom() =~= Set::empty());
    }
}

/// Evicting a pending transaction keeps the invariant and leaves fewer pending transactions.
pub proof fn law_victim_counts(s: PoolState, victim: Victim)
    requires
        inv(s),
        pending_victim(s) == Some(victim),
    ensures
        inv(without_victim(s, victim)),
        without_victim(s, victim).config == s.config,
        pending_count(without_victim(s, victim)) < pending_count(s),
{
    assert(s.by_id.dom().finite() && s.expiring.dom().finite()) by {
        reveal(inv);
    }
    law_first_out_exists(s.by_id, true);
    law_first_expiring_out_exists(s.expiring);
    match victim {
        Victim::Sequential(id) => {
            let t = without_id(s, id);
            let u = without_victim(s, victim);
            lemma_without_id_inv(s, id);
            assert(same_txs(t.by_id, u.by_id)) by {
                assert(t.by_id.dom() =~= u.by_id.dom());
            }
            lemma_new_marks_keep_inv(t, u.by_id);
            lemma_count_remove(s.by_id, with_pending(true), id);
            lemma_count_le(t.by_id, u.by_id, with_pending(true));
        },
        Victim::Expiring(hash) => {
            lemma_without_expiring_inv(s, hash);
            assert(s.expiring.remove(hash).dom() =~= s.expiring.dom().remove(hash));
        },
    }
}

/// Evicting up to `n` pending transactions keeps the invariant and leaves `n` fewer, or none.
pub proof fn law_pending_evicted(s: PoolState, n: nat)
    requires
        inv(s),
    ensures
        inv(pending_evicted(s, n).0),
        pending_evicted(s, n).0.config == s.config,
        pending_count(pending_evicted(s, n).0) <= (if pending_count(s) > n {
            pending_count(s) - n
        } else {
            0
        }),
    decreases n,
{
    if n > 0 {
        match pending_victim(s) {
            Some(victim) => {
                law_victim_counts(s, victim);
                law_pending_evicted(without_victim(s, victim), (n - 1) as nat);
            },
            None => {
                assert(s.by_id.dom().finite() && s.expiring.dom().finite()) by {
                    reveal(inv);
                }
                law_first_out_exists(s.by_id, true);
                law_first_expiring_out_exists(s.expiring);
            },
        }
    }
}

/// Evicting up to `n` queued transactions keeps the invariant, leaves `n` fewer or none, and
/// touches no pending transaction.
pub proof fn law_queued_evicted(s: PoolState, n: nat)
    requires
        inv(s),
    ensures
        ({
            let t = queued_evicted(s, n).0;
            &&& inv(t)
            &&& t.config == s.config
            &&& t.expiring == s.expiring
            &&& pending_count(t) == pending_count(s)
            &&& queued_count(t) <= (if queued_count(s) > n {
                queued_count(s) - n
            } else {
                0
            })
            &&& forall|id: AA2dTransactionId| #[trigger]
                s.by_id.contains_key(id) && s.by_id[id].is_pending ==> t.by_id.contains_key(id)
                    && t.by_id[id] == s.by_id[id]
            &&& forall|id: AA2dTransactionId| #[trigger]
                t.by_id.contains_key(id) ==> s.by_id.contains_key(id) && t.by_id[id] == s.by_id[id]
        }),
    decreases n,
{
    if n > 0 {
        assert(s.by_id.dom().finite()) by {
            reveal(inv);
        }
        law_first_out_exists(s.by_id, false);
        match first_out(s.by_id, false) {
            Some(id) => {
                let u = without_id(s, id);
                lemma_without_id_inv(s, id);
                lemma_count_remove(s.by_id, with_pending(false), id);
                lemma_count_remove(s.by_id, with_pending(true), id);
                law_queued_evicted(u, (n - 1) as nat);
                let t = queued_evicted(s, n).0;
                assert(t == queued_evicted(u, (n - 1) as nat).0);
                assert forall|x: AA2dTransactionId| #[trigger]
                    s.by_id.contains_key(x) && s.by_id[x].is_pending implies t.by_id.contains_key(x)
                    && t.by_id[x] == s.by_id[x] by {
                    assert(u.by_id.contains_key(x));
                }
                assert forall|x: AA2dTransactionId| #[trigger]
                    t.by_id.contains_key(x) implies s.by_id.contains_key(x) && t.by_id[x]
                    == s.by_id[x] by {
                    assert(u.by_id.contains_key(x));
                }
            },
            None => {},
        }
    }
}

/// Evicting the queued transactions that there are too many of leaves at most as many as are
/// allowed, and every pending transaction as it was.
pub proof fn law_queued_trimmed(s: PoolState)
    requires
        inv(s),
    ensures
        ({
            let t = queued_trimmed(s).0;
            &&& inv(t)
            &&& t.config == s.config
            &&& t.expiring == s.expiring
            &&& pending_count(t) == pending_count(s)
            &&& queued_count(t) <= s.config.queued_limit.max_txs
            &&& forall|id: AA2dTransactionId| #[trigger]
                s.by_id.contains_key(id) && s.by_id[id].is_pending ==> t.by_id.contains_key(id)
                    && t.by_id[id] == s.by_id[id]
        }),
{
    law_queued_evicted(s, excess(queued_count(s), s.config.queued_limit.max_txs));
}

/// Bringing any pool within its limits leaves at most as many pending and at most as many queued
/// transactions as are allowed. If there were not too many pending ones, every pending transaction
/// stays as it was; if there were not too many of either, nothing changes and nothing goes.
pub proof fn law_within_limits(s: PoolState)
    requires
        inv(s),
    ensures
        ({
            let t = within_limits(s).0;
            &&& inv(t)
            &&& t.config == s.config
            &&& pending_count(t) <= s.config.pending_limit.max_txs
            &&& queued_count(t) <= s.config.queued_limit.max_txs
            &&& pending_count(s) <= s.config.pending_limit.max_txs ==> {
                &&& t.expiring == s.expiring
                &&& forall|id: AA2dTransactionId| #[trigger]
                    s.by_id.contains_key(id) && s.by_id[id].is_pending ==> t.by_id.contains_key(id)
                        && t.by_id[id] == s.by_id[id]
            }
            &&& pending_count(s) <= s.config.pending_limit.max_txs && queued_count(s)
                <= s.config.queued_limit.max_txs ==> t == s && within_limits(s).1
                == Seq::<Arc<ValidPoolTransaction>>::empty()
        }),
{
    let u = queued_trimmed(s).0;
    law_queued_trimmed(s);
    let v = pending_trimmed(u).0;
    law_pending_evicted(u, excess(pending_count(u), u.config.pending_limit.max_txs));
    law_queued_trimmed(v);
    if pending_count(s) <= s.config.pending_limit.max_txs {
        assert(v == u);
        if queued_count(s) <= s.config.queued_limit.max_txs {
            assert(u == s);
            assert(within_limits(s).1 =~= Seq::empty());
        } else {
            assert(within_limits(s).0 == u);
        }
    }
}

} // verus!
