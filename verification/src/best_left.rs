//! How many transactions the iterator over the pool can still yield.
use crate::best_2d::{
    advanced, best_inv, candidate, fed, lemma_fed_backlog, lemma_fed_same, popped, ranked,
    sequence_of, taken_up, unlocked, with_ranked, BestAA2dTransactions, BestState,
    MAX_NEW_TRANSACTIONS_PER_BATCH,
};
use crate::best_2d::{backlog, lemma_with_ranked_aa};
use crate::ids::{tx_id, AA2dTransactionId};
use crate::pending::PendingTransaction;
use vstd::prelude::*;

verus! {

/// A transaction that can be executed next and is not the one that is kept under its identifier:
/// one with an expiring nonce, or one that was replaced.
pub open spec fn alone(
    by_id: Map<AA2dTransactionId, PendingTransaction>,
    tx: PendingTransaction,
) -> bool {
    match tx.transaction.transaction.spec_id() {
        Some(id) => !by_id.contains_key(id) || !by_id[id].ties(tx),
        None => true,
    }
}

/// The number of transactions that are not kept under their identifier.
pub open spec fn alone_count(
    by_id: Map<AA2dTransactionId, PendingTransaction>,
    txs: Seq<PendingTransaction>,
) -> nat
    decreases txs.len(),
{
    if txs.len() == 0 {
        0
    } else {
        alone_count(by_id, txs.drop_last()) + if alone(by_id, txs.last()) {
            1nat
        } else {
            0nat
        }
    }
}

/// The number of transactions that the iterator can still yield at most, as long as it is told of
/// no others.
pub open spec fn upper(b: BestState) -> nat {
    b.by_id.len() + alone_count(b.by_id, b.independent)
}

/// The identifier of a transaction.
spec fn id_of(tx: PendingTransaction) -> AA2dTransactionId {
    tx.transaction.transaction.spec_id()->0
}

/// The number of transactions in the feed.
pub open spec fn waiting(b: BestState) -> nat {
    match b.feed {
        Some(feed) => feed.len(),
        None => 0,
    }
}

proof fn lemma_alone_with_ranked(
    by_id: Map<AA2dTransactionId, PendingTransaction>,
    txs: Seq<PendingTransaction>,
    tx: PendingTransaction,
)
    ensures
        alone_count(by_id, with_ranked(txs, tx)) <= alone_count(by_id, txs) + if alone(by_id, tx) {
            1nat
        } else {
            0nat
        },
    decreases txs.len(),
{
    let r = with_ranked(txs, tx);
    if txs.len() == 0 {
        assert(r.drop_last() =~= txs);
        assert(r.last() == tx);
    } else if tx.better(txs.last()) {
        assert(r.drop_last() =~= txs);
        assert(r.last() == tx);
    } else if tx.ties(txs.last()) {
    } else {
        lemma_alone_with_ranked(by_id, txs.drop_last(), tx);
        assert(r.drop_last() =~= with_ranked(txs.drop_last(), tx));
        assert(r.last() == txs.last());
    }
}

proof fn lemma_ranked_front(txs: Seq<PendingTransaction>)
    requires
        ranked(txs),
        txs.len() > 0,
    ensures
        ranked(txs.drop_last()),
        forall|i: int| 0 <= i < txs.len() - 1 ==> txs.last().better(#[trigger] txs[i]),
{
    let front = txs.drop_last();
    assert forall|i: int, j: int|
        #![trigger front[i], front[j]]
        0 <= i < j < front.len() implies front[j].better(front[i]) by {
        assert(txs[j].better(txs[i]));
    }
    assert forall|i: int| 0 <= i < txs.len() - 1 implies txs.last().better(#[trigger] txs[i]) by {
        assert(txs[txs.len() - 1].better(txs[i]));
    }
}

/// None of the transactions has the priority and submission number of `tx`.
spec fn none_ties(txs: Seq<PendingTransaction>, tx: PendingTransaction) -> bool {
    forall|i: int| 0 <= i < txs.len() ==> !tx.ties(#[trigger] txs[i])
}

proof fn lemma_alone_without_untied(
    by_id: Map<AA2dTransactionId, PendingTransaction>,
    txs: Seq<PendingTransaction>,
    id: AA2dTransactionId,
)
    requires
        by_id.contains_key(id),
        none_ties(txs, by_id[id]),
    ensures
        alone_count(by_id.remove(id), txs) == alone_count(by_id, txs),
    decreases txs.len(),
{
    if txs.len() > 0 {
        let front = txs.drop_last();
        assert forall|i: int| 0 <= i < front.len() implies !by_id[id].ties(#[trigger] front[i]) by {
            assert(front[i] == txs[i]);
        }
        lemma_alone_without_untied(by_id, front, id);
        assert(!by_id[id].ties(txs[txs.len() - 1]));
    }
}

proof fn lemma_alone_without(
    by_id: Map<AA2dTransactionId, PendingTransaction>,
    txs: Seq<PendingTransaction>,
    id: AA2dTransactionId,
)
    requires
        ranked(txs),
        by_id.contains_key(id),
    ensures
        alone_count(by_id.remove(id), txs) <= alone_count(by_id, txs) + 1,
    decreases txs.len(),
{
    if txs.len() > 0 {
        let front = txs.drop_last();
        lemma_ranked_front(txs);
        if by_id[id].ties(txs.last()) {
            assert forall|i: int| 0 <= i < front.len() implies !by_id[id].ties(
                #[trigger] front[i],
            ) by {
                assert(txs.last().better(txs[i]));
            }
            lemma_alone_without_untied(by_id, front, id);
        } else {
            lemma_alone_without(by_id, front, id);
        }
    }
}

/// What always holds of the iterator, on a finite number of transactions.
pub open spec fn best_sound(b: BestState) -> bool {
    best_inv(b) && b.by_id.dom().finite()
}

proof fn lemma_taken_up_sound(b: BestState, tx: PendingTransaction)
    requires
        best_sound(b),
        tx.transaction.transaction.inner.aa is Some,
    ensures
        best_sound(taken_up(b, tx)),
{
    lemma_with_ranked_aa(b.independent, tx);
}

proof fn lemma_fed_sound(b: BestState, n: nat)
    requires
        best_sound(b),
    ensures
        best_sound(fed(b, n)),
        waiting(fed(b, n)) <= waiting(b),
        waiting(fed(b, n)) == waiting(b) ==> fed(b, n) == b || n == 0,
    decreases n,
{
    if n > 0 && b.feed is Some && b.feed->0.len() > 0 {
        let feed = b.feed->0;
        let c = BestState { feed: Some(feed.drop_first()), ..b };
        assert forall|i: int| 0 <= i < feed.drop_first().len() implies (
        #[trigger] feed.drop_first()[i]).transaction.transaction.inner.aa is Some by {
            assert(feed[i + 1] == feed.drop_first()[i]);
        }
        assert(best_sound(c));
        lemma_taken_up_sound(c, feed[0]);
        lemma_fed_sound(taken_up(c, feed[0]), (n - 1) as nat);
    }
}

proof fn lemma_popped(b: BestState)
    requires
        best_sound(b),
        candidate(b) is Some,
    ensures
        best_sound(popped(b)),
        upper(popped(b)) < upper(fed(b, MAX_NEW_TRANSACTIONS_PER_BATCH as nat)),
        popped(b).feed == fed(b, MAX_NEW_TRANSACTIONS_PER_BATCH as nat).feed,
        candidate(b)->0.transaction.transaction.inner.aa is Some,
{
    let c = fed(b, MAX_NEW_TRANSACTIONS_PER_BATCH as nat);
    lemma_fed_sound(b, MAX_NEW_TRANSACTIONS_PER_BATCH as nat);
    let best = c.independent.last();
    let front = c.independent.drop_last();
    assert(c.independent[c.independent.len() - 1] == best);
    assert(best.transaction.transaction.inner.aa is Some);
    lemma_ranked_front(c.independent);
    assert forall|i: int| 0 <= i < front.len() implies (
    #[trigger] front[i]).transaction.transaction.inner.aa is Some by {
        assert(front[i] == c.independent[i]);
    }
    let id = id_of(best);
    if c.by_id.contains_key(id) {
        assert(c.by_id.remove(id).len() == c.by_id.len() - 1);
        if c.by_id[id].ties(best) {
            assert forall|i: int| 0 <= i < front.len() implies !c.by_id[id].ties(
                #[trigger] front[i],
            ) by {
                assert(best.better(c.independent[i]));
            }
            lemma_alone_without_untied(c.by_id, front, id);
        } else {
            lemma_alone_without(c.by_id, front, id);
        }
    } else {
        assert(c.by_id.remove(id) =~= c.by_id);
    }
}

proof fn lemma_unlocked(b: BestState, best: PendingTransaction)
    requires
        best_sound(b),
    ensures
        best_sound(unlocked(b, best)),
        upper(unlocked(b, best)) <= upper(b),
        unlocked(b, best).feed == b.feed,
{
    let id = id_of(best);
    let next = tx_id(id.seq_id, (if id.nonce < u64::MAX { id.nonce + 1 } else { u64::MAX as int })
        as u64);
    if b.by_id.contains_key(next) {
        lemma_with_ranked_aa(b.independent, b.by_id[next]);
        lemma_alone_with_ranked(b.by_id, b.independent, b.by_id[next]);
        assert(!alone(b.by_id, b.by_id[next]));
    }
}

/// A step of the iterator keeps what always holds of it.
///
/// Either it takes transactions from the feed, or it can yield no more after it than before, and
/// fewer if it yields one.
pub proof fn law_step_takes_one(b: BestState)
    requires
        best_sound(b),
    ensures
        best_sound(advanced(b).0),
        waiting(advanced(b).0) <= waiting(b),
        waiting(advanced(b).0) == waiting(b) ==> upper(advanced(b).0) <= upper(b),
        waiting(advanced(b).0) == waiting(b) && advanced(b).1 is Some ==> upper(advanced(b).0)
            < upper(b),
        (advanced(b).0.feed is Some) == (b.feed is Some),
    decreases backlog(b),
{
    let n = MAX_NEW_TRANSACTIONS_PER_BATCH as nat;
    lemma_fed_sound(b, n);
    lemma_fed_backlog(b, n);
    lemma_fed_same(b, n);
    match candidate(b) {
        Some(best) => {
            lemma_popped(b);
            let c = popped(b);
            if b.invalid.contains(sequence_of(best)) {
                law_step_takes_one(c);
            } else {
                lemma_unlocked(c, best);
            }
        },
        None => {},
    }
}

/// The states that an iterator goes through, step by step.
pub open spec fn after_steps(b: BestState, n: nat) -> BestState
    decreases n,
{
    if n == 0 {
        b
    } else {
        advanced(after_steps(b, (n - 1) as nat)).0
    }
}

/// The number of transactions that an iterator yields in a number of steps.
pub open spec fn yielded(b: BestState, n: nat) -> nat
    decreases n,
{
    if n == 0 {
        0
    } else {
        yielded(b, (n - 1) as nat) + if advanced(after_steps(b, (n - 1) as nat)).1 is Some {
            1nat
        } else {
            0nat
        }
    }
}

/// An iterator that takes up no more transactions never yields more than its upper bound says, in
/// however many steps.
pub proof fn law_upper_bounds_yield(b: BestState, n: nat)
    requires
        best_sound(b),
        b.feed is None,
    ensures
        yielded(b, n) + upper(after_steps(b, n)) <= upper(b),
        best_sound(after_steps(b, n)),
        after_steps(b, n).feed is None,
    decreases n,
{
    if n > 0 {
        law_upper_bounds_yield(b, (n - 1) as nat);
        law_step_takes_one(after_steps(b, (n - 1) as nat));
    }
}

impl BestAA2dTransactions {
    /// Counts the transactions that are not kept under their identifier.
    pub(crate) fn count_alone(&self) -> (r: usize)
        requires
            self.wf(),
        ensures
            r == alone_count(self@.by_id, self@.independent),
    {
        let ghost txs = self.independent@;
        let mut count: usize = 0;
        let mut i: usize = 0;
        assert(txs.take(0) =~= Seq::empty());
        while i < self.independent.len()
            invariant
                self.wf(),
                txs == self.independent@,
                i <= txs.len(),
                count <= i,
                count == alone_count(self@.by_id, txs.take(i as int)),
            decreases txs.len() - i,
        {
            proof {
                assert(txs.take(i + 1).drop_last() =~= txs.take(i as int));
                assert(txs.take(i + 1).last() == txs[i as int]);
            }
            let tx = &self.independent[i];
            let alone: bool = match tx.transaction.transaction.aa_transaction_id() {
                Some(id) => match self.by_id.get(&id) {
                    Some(kept) => kept.is_better(tx) || tx.is_better(kept),
                    None => true,
                },
                None => true,
            };
            if alone {
                count = count + 1;
            }
            i = i + 1;
        }
        assert(txs.take(i as int) =~= txs);
        count
    }
}

} // verus!
