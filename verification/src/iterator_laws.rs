//! How the iterators over the best transactions go on.
use crate::best::{
    aa_2d_fetched, awaited, merged, protocol_fetched, AwareState, MergeBestTransactions,
    MergeState, StateAwareBestTransactions,
};
use crate::best_2d::{
    advanced, backlog, best_inv, candidate, fed, lemma_fed_backlog, lemma_with_ranked,
    marked_invalid, popped, ranked, sequence_of, with_all_ranked, BestAA2dTransactions, BestState,
    MAX_NEW_TRANSACTIONS_PER_BATCH,
};
use crate::best_laws::{law_invalid_is_not_yielded, lemma_with_all_ranked_members};
use crate::best_transactions::BestTransactions;
use crate::error::InvalidPoolTransactionError;
use crate::ids::tx_id;
use crate::insertion_laws::sequence_of_tx;
use crate::pending::PendingTransaction;
use crate::primitives::two_256;
use crate::transaction::{TempoPooledTransaction, ValidPoolTransaction};
use vstd::prelude::*;

verus! {

/// The transaction behind a handle.
spec fn pooled(tx: PendingTransaction) -> TempoPooledTransaction {
    tx.transaction.transaction
}

/// While the iterator takes up nothing new, a transaction that is yielded makes room for the one
/// after it in its sequence: that one can be executed next, unless one of the same priority and
/// submission number can.
pub proof fn law_next_nonce_is_unlocked(b: BestState)
    requires
        best_inv(b),
        b.feed is None,
        advanced(b).1 is Some,
    ensures
        ({
            let best = advanced(b).1->0;
            let tx = best.transaction.transaction;
            let next = tx_id(sequence_of_tx(tx), (tx.inner.nonce + 1) as u64);
            let after = advanced(b).0;
            &&& tx.inner.aa is Some
            &&& tx.inner.aa->0.nonce_key@ != two_256() - 1 && tx.inner.nonce < u64::MAX
                && b.by_id.contains_key(next) ==> after.independent.contains(b.by_id[next])
                || exists|i: int|
                0 <= i < after.independent.len() && b.by_id[next].ties(
                    #[trigger] after.independent[i],
                )
        }),
    decreases b.independent.len(),
{
    let c = fed(b, MAX_NEW_TRANSACTIONS_PER_BATCH as nat);
    assert(c == b);
    let first = b.independent.last();
    let d = popped(b);
    assert(first == b.independent[b.independent.len() - 1]);
    assert(d.independent == b.independent.drop_last());
    assert(best_inv(d)) by {
        assert forall|i: int, j: int|
            #![trigger d.independent[i], d.independent[j]]
            0 <= i < j < d.independent.len() implies d.independent[j].better(d.independent[i]) by {
            assert(b.independent[j].better(b.independent[i]));
        }
        assert forall|i: int| 0 <= i < d.independent.len() implies (
        #[trigger] d.independent[i]).transaction.transaction.inner.aa is Some by {
            assert(b.independent[i].transaction.transaction.inner.aa is Some);
        }
    }
    if b.invalid.contains(sequence_of(first)) {
        assert(advanced(b) == advanced(d));
        law_next_nonce_is_unlocked(d);
        law_invalid_is_not_yielded(d);
    } else {
        let next = tx_id(sequence_of_tx(pooled(first)), (pooled(first).inner.nonce + 1) as u64);
        if pooled(first).inner.nonce < u64::MAX && b.by_id.contains_key(next) {
            lemma_with_ranked(d.independent, b.by_id[next]);
            let after = advanced(b).0;
            if !after.independent.contains(b.by_id[next]) && pooled(
                first,
            ).inner.aa->0.nonce_key@ != two_256() - 1 {
                let i = choose|i: int|
                    0 <= i < d.independent.len() && b.by_id[next].ties(
                        #[trigger] d.independent[i],
                    );
                assert(after.independent.contains(d.independent[i]));
                let k = choose|k: int|
                    0 <= k < after.independent.len() && after.independent[k] == d.independent[i];
                assert(b.by_id[next].ties(after.independent[k]));
            }
        }
    }
}

/// While the iterator takes up new transactions, it remembers the priority of the last one that it
/// yielded, which no newcomer may exceed.
pub proof fn law_last_priority_is_remembered(b: BestState)
    requires
        b.feed is Some,
    ensures
        advanced(b).1 matches Some(best) ==> advanced(b).0.last_priority == Some(best.priority),
    decreases backlog(b),
{
    lemma_fed_backlog(b, MAX_NEW_TRANSACTIONS_PER_BATCH as nat);
    match candidate(b) {
        Some(best) => {
            if b.invalid.contains(sequence_of(best)) {
                law_last_priority_is_remembered(popped(b));
            }
        },
        None => {},
    }
}

/// An iterator that was told to take up no more transactions takes up none, and is otherwise as it
/// was.
pub proof fn law_no_more_updates<P: BestTransactions>(b: BestState, m: MergeState<P::State>)
    ensures
        ({
            let c = <BestAA2dTransactions as BestTransactions>::after_no_updates(b);
            &&& c.feed is None
            &&& c.independent == b.independent && c.by_id == b.by_id && c.invalid == b.invalid
        }),
        ({
            let n = <MergeBestTransactions<P> as BestTransactions>::after_no_updates(m);
            &&& n.aa_2d.feed is None
            &&& n.aa_2d.independent == m.aa_2d.independent && n.aa_2d.by_id == m.aa_2d.by_id
                && n.aa_2d.invalid == m.aa_2d.invalid
            &&& n.protocol == P::after_no_updates(m.protocol)
            &&& n.next_protocol == m.next_protocol && n.next_aa_2d == m.next_aa_2d && n.base_fee
                == m.base_fee
        }),
{
}

/// Whether blob transactions are skipped is for the protocol pool to decide alone.
pub proof fn law_blobs_are_of_the_protocol_pool<P: BestTransactions>(
    m: MergeState<P::State>,
    skip: bool,
)
    ensures
        ({
            let n = <MergeBestTransactions<P> as BestTransactions>::after_skip_blobs(m, skip);
            n.protocol == P::after_skip_blobs(m.protocol, skip) && n.aa_2d == m.aa_2d
                && n.next_protocol == m.next_protocol && n.next_aa_2d == m.next_aa_2d
        }),
{
}

/// The merging iterator loses no transaction: the one of the two that it does not yield is the next
/// of its pool.
pub proof fn law_the_other_is_kept<P: BestTransactions>(m: MergeState<P::State>)
    ensures
        ({
            let ready = aa_2d_fetched(protocol_fetched::<P>(m));
            let (after, taken) = merged::<P>(m);
            &&& m.next_protocol is Some ==> ready.next_protocol == m.next_protocol
                && ready.protocol == m.protocol
            &&& m.next_aa_2d is Some ==> ready.next_aa_2d == m.next_aa_2d && ready.aa_2d == m.aa_2d
            &&& ready.next_protocol is Some && taken != ready.next_protocol ==> after.next_protocol
                == ready.next_protocol
            &&& ready.next_aa_2d is Some && taken != ready.next_aa_2d ==> after.next_aa_2d
                == ready.next_aa_2d
            &&& m.next_aa_2d is None ==> (match advanced(m.aa_2d).1 {
                Some(tx) => ready.next_aa_2d == Some((tx.transaction, tx.priority)),
                None => ready.next_aa_2d is None,
            })
            &&& m.next_protocol is None ==> (match P::stepped(m.protocol).1 {
                Some(tx) => ready.next_protocol is Some && (ready.next_protocol->0).0 == tx,
                None => ready.next_protocol is None,
            })
        }),
{
}

/// The iterator that knows of balances hands on what it is told to the one inside, and forgets no
/// balance over it.
pub proof fn law_told_on<I: BestTransactions>(
    s: AwareState<I::State>,
    tx: ValidPoolTransaction,
    kind: InvalidPoolTransactionError,
    skip: bool,
)
    ensures
        ({
            let invalid = <StateAwareBestTransactions<I> as BestTransactions>::after_invalid(
                s,
                tx,
                kind,
            );
            let quiet = <StateAwareBestTransactions<I> as BestTransactions>::after_no_updates(s);
            let skipped = <StateAwareBestTransactions<I> as BestTransactions>::after_skip_blobs(
                s,
                skip,
            );
            let step = <StateAwareBestTransactions<I> as BestTransactions>::stepped(s);
            &&& invalid.inner == I::after_invalid(s.inner, tx, kind) && invalid.decreased
                == s.decreased
            &&& quiet.inner == I::after_no_updates(s.inner) && quiet.decreased == s.decreased
            &&& skipped.inner == I::after_skip_blobs(s.inner, skip) && skipped.decreased
                == s.decreased
            &&& step.0.decreased == s.decreased
            &&& step.1 == awaited::<I>(s.inner, s.decreased).1
        }),
{
}

/// What the iterator over the pool for two-dimensional nonces yields to its user is the transaction
/// of its step, and a mark reaches it.
pub proof fn law_steps_of_the_pool(
    b: BestState,
    tx: ValidPoolTransaction,
    kind: InvalidPoolTransactionError,
)
    ensures
        ({
            let step = <BestAA2dTransactions as BestTransactions>::stepped(b);
            &&& step.0 == advanced(b).0
            &&& step.1 is Some <==> advanced(b).1 is Some
            &&& step.1 is Some ==> step.1->0 == advanced(b).1->0.transaction
            &&& <BestAA2dTransactions as BestTransactions>::after_invalid(b, tx, kind)
                == marked_invalid(b, tx)
        }),
{
}

/// The merging iterator expects as many transactions as both pools do together and those that it
/// holds ready. It gives no upper bound unless both do.
pub proof fn law_hints_add_up<P: BestTransactions>(m: MergeState<P::State>)
    ensures
        ({
            let hint = <MergeBestTransactions<P> as BestTransactions>::hint(m);
            let one = P::hint(m.protocol);
            let other = <BestAA2dTransactions as BestTransactions>::hint(m.aa_2d);
            let ready = (if m.next_protocol is Some {
                1int
            } else {
                0
            }) + (if m.next_aa_2d is Some {
                1int
            } else {
                0
            });
            &&& one.0 + other.0 + ready <= usize::MAX ==> hint.0 == one.0 + other.0 + ready
            &&& hint.1 matches Some(most) ==> one.1 is Some && other.1 is Some && most == one.1->0
                + other.1->0 + ready
            &&& one.1 is Some && other.1 is Some && one.1->0 + other.1->0 + ready <= usize::MAX
                ==> hint.1 is Some
        }),
{
}

/// The transaction is among the others, or one of the same priority and submission number is.
pub open spec fn is_among(tx: PendingTransaction, txs: Seq<PendingTransaction>) -> bool {
    txs.contains(tx) || exists|i: int| 0 <= i < txs.len() && tx.ties(#[trigger] txs[i])
}

/// Putting transactions in their places among ranked ones keeps the ranking and leaves out none of
/// either, unless it ties with another one.
pub proof fn law_all_can_be_executed(
    txs: Seq<PendingTransaction>,
    more: Seq<PendingTransaction>,
    tx: PendingTransaction,
)
    requires
        ranked(txs),
        txs.contains(tx) || more.contains(tx),
    ensures
        is_among(tx, with_all_ranked(txs, more)),
        ranked(with_all_ranked(txs, more)),
    decreases more.len(),
{
    if more.len() > 0 {
        let front = more.drop_last();
        let last = more.last();
        let before = with_all_ranked(txs, front);
        let after = with_all_ranked(txs, more);
        lemma_with_all_ranked_members(txs, front);
        lemma_with_ranked(before, last);
        if more.contains(tx) {
            let i = choose|i: int| 0 <= i < more.len() && more[i] == tx;
            if i < front.len() {
                assert(front[i] == tx);
            }
        }
        if txs.contains(tx) || front.contains(tx) {
            law_all_can_be_executed(txs, front, tx);
            if before.contains(tx) {
                let j = choose|j: int| 0 <= j < before.len() && before[j] == tx;
                assert(after.contains(before[j]));
            } else {
                let j = choose|j: int| 0 <= j < before.len() && tx.ties(#[trigger] before[j]);
                assert(after.contains(before[j]));
                let k = choose|k: int| 0 <= k < after.len() && after[k] == before[j];
                assert(tx.ties(after[k]));
            }
        } else {
            assert(tx == last);
            if !after.contains(tx) {
                let j = choose|j: int| 0 <= j < before.len() && tx.ties(#[trigger] before[j]);
                assert(after.contains(before[j]));
                let k = choose|k: int| 0 <= k < after.len() && after[k] == before[j];
                assert(tx.ties(after[k]));
            }
        }
    }
}

} // verus!
