//! What holds of the iterator over the best transactions.
use crate::best_2d::{
    advanced, backlog, best_inv, candidate, executable, fed, lemma_fed_backlog, lemma_fed_same,
    lemma_with_ranked, popped, ranked, sequence_of, unlocked, values, with_all_ranked, BestState,
    MAX_NEW_TRANSACTIONS_PER_BATCH,
};
use crate::coherence::{coherent, in_line};
use crate::ids::{tx_id, AA2dTransactionId};
use crate::ordered::lemma_entry_in_map;
use crate::pending::PendingTransaction;
use crate::pool::AA2dPool;
use crate::pool_state::inv;
use vstd::prelude::*;

verus! {

/// Once a transaction of a sequence is marked as invalid, nothing of that sequence is yielded.
pub proof fn law_invalid_is_not_yielded(b: BestState)
    ensures
        advanced(b).1 is Some ==> !b.invalid.contains(sequence_of(advanced(b).1->0)),
        advanced(b).0.invalid == b.invalid,
    decreases backlog(b),
{
    lemma_fed_same(b, MAX_NEW_TRANSACTIONS_PER_BATCH as nat);
    match candidate(b) {
        Some(best) => {
            if b.invalid.contains(sequence_of(best)) {
                lemma_fed_backlog(b, MAX_NEW_TRANSACTIONS_PER_BATCH as nat);
                law_invalid_is_not_yielded(popped(b));
            }
        },
        None => {},
    }
}

/// Of the transactions that can be executed next and whose sequence is not invalid, the best is
/// yielded; nothing is yielded only if there is none.
pub proof fn law_best_is_yielded(b: BestState)
    requires
        b.feed is None,
        ranked(b.independent),
    ensures
        match advanced(b).1 {
            Some(best) => b.independent.contains(best) && forall|i: int|
                0 <= i < b.independent.len() && b.independent[i] != best && !b.invalid.contains(
                    sequence_of(#[trigger] b.independent[i]),
                ) ==> best.better(b.independent[i]),
            None => forall|i: int|
                0 <= i < b.independent.len() ==> b.invalid.contains(
                    sequence_of(#[trigger] b.independent[i]),
                ),
        },
    decreases b.independent.len(),
{
    assert(fed(b, MAX_NEW_TRANSACTIONS_PER_BATCH as nat) == b);
    if b.independent.len() > 0 {
        let n = b.independent.len() - 1;
        let best = b.independent[n];
        if b.invalid.contains(sequence_of(best)) {
            let c = popped(b);
            let front = b.independent.drop_last();
            assert forall|i: int, j: int|
                #![trigger front[i], front[j]]
                0 <= i < j < front.len() implies front[j].better(front[i]) by {
                assert(b.independent[j].better(b.independent[i]));
            }
            law_best_is_yielded(c);
            match advanced(b).1 {
                Some(tx) => {
                    let k = choose|k: int| 0 <= k < front.len() && front[k] == tx;
                    assert(b.independent[k] == tx);
                    assert forall|i: int|
                        0 <= i < b.independent.len() && b.independent[i] != tx
                            && !b.invalid.contains(
                            sequence_of(#[trigger] b.independent[i]),
                        ) implies tx.better(b.independent[i]) by {
                        assert(i < n);
                        assert(c.independent[i] == b.independent[i]);
                    }
                },
                None => {
                    assert forall|i: int| 0 <= i < b.independent.len() implies b.invalid.contains(
                        sequence_of(#[trigger] b.independent[i]),
                    ) by {
                        if i < n {
                            assert(c.independent[i] == b.independent[i]);
                        }
                    }
                },
            }
        }
    }
}

/// The identifier of a transaction.
spec fn id_of(tx: PendingTransaction) -> AA2dTransactionId {
    tx.transaction.transaction.spec_id()->0
}

/// The transaction has an expiring nonce.
spec fn expires(tx: PendingTransaction) -> bool {
    tx.transaction.transaction.spec_is_expiring_nonce()
}

/// The transaction before this one in its sequence is waiting in the iterator.
pub open spec fn predecessor_waits(b: BestState, tx: PendingTransaction) -> bool {
    match tx.transaction.transaction.spec_id() {
        Some(id) => !tx.transaction.transaction.spec_is_expiring_nonce() && id.nonce > 0
            && b.by_id.contains_key(tx_id(id.seq_id, (id.nonce - 1) as u64)),
        None => false,
    }
}

/// Nothing can be executed next while the transaction before it in its sequence is waiting.
pub open spec fn in_order(b: BestState) -> bool {
    &&& forall|i: int|
        0 <= i < b.independent.len() ==> !predecessor_waits(b, #[trigger] b.independent[i])
    &&& forall|id: AA2dTransactionId| #[trigger]
        b.by_id.contains_key(id) ==> b.by_id[id].transaction.transaction.spec_id() == Some(id)
}

/// Without updates, the transactions of a sequence are yielded in the order of their nonces: none
/// is yielded while the one before it is waiting, and what is yielded no longer waits.
pub proof fn law_nonces_in_order(b: BestState)
    requires
        b.feed is None,
        best_inv(b),
        in_order(b),
    ensures
        in_order(advanced(b).0),
        best_inv(advanced(b).0),
        advanced(b).0.feed is None,
        advanced(b).1 is Some ==> !predecessor_waits(b, advanced(b).1->0)
            && !advanced(b).0.by_id.contains_key(
            advanced(b).1->0.transaction.transaction.spec_id()->0,
        ),
    decreases b.independent.len(),
{
    assert(fed(b, MAX_NEW_TRANSACTIONS_PER_BATCH as nat) == b);
    if b.independent.len() > 0 {
        let n = b.independent.len() - 1;
        let best = b.independent[n];
        let c = popped(b);
        let front = b.independent.drop_last();
        assert(best.transaction.transaction.inner.aa is Some);
        assert(best_inv(c)) by {
            assert forall|i: int, j: int|
                #![trigger front[i], front[j]]
                0 <= i < j < front.len() implies front[j].better(front[i]) by {
                assert(b.independent[j].better(b.independent[i]));
            }
            assert forall|i: int| 0 <= i < front.len() implies (
            #[trigger] front[i]).transaction.transaction.inner.aa is Some by {
                assert(b.independent[i] == front[i]);
            }
        }
        assert(in_order(c)) by {
            assert forall|i: int| 0 <= i < c.independent.len() implies !predecessor_waits(
                c,
                #[trigger] c.independent[i],
            ) by {
                assert(c.independent[i] == b.independent[i]);
            }
        }
        if b.invalid.contains(sequence_of(best)) {
            law_nonces_in_order(c);
            if advanced(b).1 is Some {
                let tx = advanced(b).1->0;
                law_best_is_yielded(c);
                assert(c.independent.contains(tx));
                let k = choose|k: int| 0 <= k < c.independent.len() && c.independent[k] == tx;
                assert(b.independent[k] == tx);
            }
        } else {
            let t = unlocked(c, best);
            let id = id_of(best);
            let next = tx_id(
                id.seq_id,
                (if id.nonce < u64::MAX { id.nonce + 1 } else { u64::MAX as int }) as u64,
            );
            if !expires(best) && c.by_id.contains_key(next) {
                let tx = c.by_id[next];
                lemma_with_ranked(c.independent, tx);
                assert(tx.transaction.transaction.spec_id() == Some(next));
                if id.nonce == u64::MAX {
                    assert(next == id);
                }
                assert(!predecessor_waits(c, tx));
                assert forall|i: int| 0 <= i < t.independent.len() implies !predecessor_waits(
                    t,
                    #[trigger] t.independent[i],
                ) && t.independent[i].transaction.transaction.inner.aa is Some by {
                    if t.independent[i] != tx {
                        assert(c.independent.contains(t.independent[i]));
                        let k = choose|k: int|
                            0 <= k < c.independent.len() && c.independent[k] == t.independent[i];
                        assert(!predecessor_waits(c, c.independent[k]));
                    }
                }
            } else {
                assert forall|i: int| 0 <= i < t.independent.len() implies !predecessor_waits(
                    t,
                    #[trigger] t.independent[i],
                ) by {
                    assert(!predecessor_waits(c, c.independent[i]));
                }
            }
        }
    }
}

/// Putting transactions in their places keeps the ranking and adds no others.
pub proof fn lemma_with_all_ranked_members(txs: Seq<PendingTransaction>, more: Seq<PendingTransaction>)
    requires
        ranked(txs),
    ensures
        ranked(with_all_ranked(txs, more)),
        forall|i: int|
            0 <= i < with_all_ranked(txs, more).len() ==> txs.contains(
                #[trigger] with_all_ranked(txs, more)[i],
            ) || more.contains(with_all_ranked(txs, more)[i]),
    decreases more.len(),
{
    let r = with_all_ranked(txs, more);
    if more.len() == 0 {
        assert forall|i: int| 0 <= i < r.len() implies txs.contains(#[trigger] r[i])
            || more.contains(r[i]) by {
            assert(txs[i] == r[i]);
        }
    } else {
        let front = more.drop_last();
        let rest = with_all_ranked(txs, front);
        lemma_with_all_ranked_members(txs, front);
        lemma_with_ranked(rest, more.last());
        assert forall|i: int| 0 <= i < r.len() implies txs.contains(#[trigger] r[i])
            || more.contains(r[i]) by {
            if r[i] == more.last() {
                assert(more[more.len() - 1] == r[i]);
            } else {
                let k = choose|k: int| 0 <= k < rest.len() && rest[k] == r[i];
                assert(txs.contains(rest[k]) || front.contains(rest[k]));
                if front.contains(r[i]) {
                    let m = choose|m: int| 0 <= m < front.len() && front[m] == r[i];
                    assert(more[m] == r[i]);
                }
            }
        }
    }
}

/// The iterator over a coherent pool starts with the first transaction of each sequence, so that
/// it yields each sequence in order.
pub proof fn law_snapshot_in_order(pool: AA2dPool, b: BestState)
    requires
        pool.wf(),
        coherent(pool@),
        b.independent == with_all_ranked(
            with_all_ranked(Seq::empty(), values(pool.independent_transactions.entries@)),
            values(pool.expiring_nonce_txs.entries@),
        ),
        b.by_id == executable(pool@.by_id),
    ensures
        in_order(b),
{
    reveal(inv);
    let a = pool.independent_transactions.entries@;
    let e = pool.expiring_nonce_txs.entries@;
    let none = Seq::<PendingTransaction>::empty();
    lemma_with_all_ranked_members(none, values(a));
    lemma_with_all_ranked_members(with_all_ranked(none, values(a)), values(e));
    assert forall|i: int| 0 <= i < b.independent.len() implies !predecessor_waits(
        b,
        #[trigger] b.independent[i],
    ) by {
        let tx = b.independent[i];
        if values(e).contains(tx) {
            let k = choose|k: int| 0 <= k < values(e).len() && values(e)[k] == tx;
            lemma_entry_in_map(e, k);
            assert(pool@.expiring.contains_key(e[k].0));
        } else {
            let first = with_all_ranked(none, values(a));
            assert(first.contains(tx));
            let m = choose|m: int| 0 <= m < first.len() && first[m] == tx;
            assert(values(a).contains(first[m]));
            let k = choose|k: int| 0 <= k < values(a).len() && values(a)[k] == tx;
            lemma_entry_in_map(a, k);
            assert(in_line(pool@, a[k].0));
            assert(pool@.independent.contains_key(a[k].0));
        }
    }
    assert forall|id: AA2dTransactionId| #[trigger] b.by_id.contains_key(
        id,
    ) implies b.by_id[id].transaction.transaction.spec_id() == Some(id) by {
        assert(pool@.by_id.contains_key(id));
    }
}

} // verus!
