//! What holds of a whole run of the iterator over the best transactions, while it takes up no new
//! ones and is told of invalid ones at any time.
use crate::best_2d::{
    advanced, all_aa, best_inv, executable, fed, lemma_with_ranked, marked_invalid, popped,
    sequence_of, unlocked, values, with_all_ranked, BestState, MAX_NEW_TRANSACTIONS_PER_BATCH,
};
use crate::best_laws::{law_invalid_is_not_yielded, lemma_with_all_ranked_members};
use crate::coherence::{coherent, in_line};
use crate::ids::{tx_id, AA2dTransactionId, AASequenceId};
use crate::ordered::lemma_entry_in_map;
use crate::pending::PendingTransaction;
use crate::pool::AA2dPool;
use crate::pool_state::inv;
use crate::transaction::ValidPoolTransaction;
use vstd::prelude::*;

verus! {

/// The iterator after some transactions were marked as invalid.
pub open spec fn all_marked(b: BestState, txs: Seq<ValidPoolTransaction>) -> BestState
    decreases txs.len(),
{
    if txs.len() == 0 {
        b
    } else {
        marked_invalid(all_marked(b, txs.drop_last()), txs.last())
    }
}

/// What the iterator yields, step by step, if before each step some transactions are marked as
/// invalid.
pub open spec fn run(b: BestState, marks: Seq<Seq<ValidPoolTransaction>>) -> Seq<
    Option<PendingTransaction>,
>
    decreases marks.len(),
{
    if marks.len() == 0 {
        Seq::empty()
    } else {
        let (after, tx) = advanced(all_marked(b, marks[0]));
        seq![tx] + run(after, marks.drop_first())
    }
}

/// The iterator holds the transaction.
pub open spec fn waits(b: BestState, tx: PendingTransaction) -> bool {
    ||| b.independent.contains(tx)
    ||| match tx.transaction.transaction.spec_id() {
        Some(id) => b.by_id.contains_key(id) && b.by_id[id] == tx,
        None => false,
    }
}

/// The transaction has a nonce that follows on another.
pub open spec fn sequential(tx: PendingTransaction) -> bool {
    tx.transaction.transaction.spec_id() is Some
        && !tx.transaction.transaction.spec_is_expiring_nonce()
}

/// Both transactions have nonces of the same sequence.
pub open spec fn same_sequence(x: PendingTransaction, y: PendingTransaction) -> bool {
    sequential(x) && sequential(y) && sequence_of(x) == sequence_of(y)
}

/// The identifier of a transaction.
pub open spec fn id_of(tx: PendingTransaction) -> AA2dTransactionId {
    tx.transaction.transaction.spec_id()->0
}

/// The nonce of a transaction.
pub open spec fn nonce_of(tx: PendingTransaction) -> int {
    id_of(tx).nonce as int
}

/// The transaction `y` comes right after `x` in its sequence, and the iterator holds it.
spec fn follows(b: BestState, x: PendingTransaction, y: PendingTransaction) -> bool {
    &&& same_sequence(x, y)
    &&& nonce_of(y) == nonce_of(x) + 1
    &&& b.by_id.contains_key(id_of(y))
    &&& b.by_id[id_of(y)] == y
}

/// No two transactions of the iterator have the same hash, and of each sequence at most one can be
/// executed next.
pub open spec fn told_apart(b: BestState) -> bool {
    &&& forall|x: PendingTransaction, y: PendingTransaction|
        #![trigger waits(b, x), waits(b, y)]
        waits(b, x) && waits(b, y) && x.transaction.spec_hash() == y.transaction.spec_hash() ==> x
            == y
    &&& one_per_sequence(b)
}

/// Of each sequence at most one transaction can be executed next.
pub open spec fn one_per_sequence(b: BestState) -> bool {
    forall|x: PendingTransaction, y: PendingTransaction|
        #![trigger b.independent.contains(x), b.independent.contains(y)]
        b.independent.contains(x) && b.independent.contains(y) && same_sequence(x, y) ==> x == y
}

/// The iterator takes up nothing new.
pub open spec fn closed_to_updates(b: BestState) -> bool {
    b.feed is None && best_inv(b)
}

/// What one step does: it hands out a transaction that could be executed next, and what can be
/// executed next afterwards could be before, or is what follows on the one handed out.
spec fn steps_to(b: BestState, c: BestState, tx: Option<PendingTransaction>) -> bool {
    &&& closed_to_updates(c)
    &&& c.invalid == b.invalid
    &&& tx is Some ==> b.independent.contains(tx->0) && !waits(c, tx->0)
    &&& forall|y: PendingTransaction| #[trigger] waits(c, y) ==> waits(b, y)
    &&& forall|y: PendingTransaction| #[trigger]
        c.independent.contains(y) ==> b.independent.contains(y) || (tx is Some && (sequential(y)
            ==> follows(b, tx->0, y)))
}

proof fn lemma_popped_steps(b: BestState)
    requires
        closed_to_updates(b),
        b.independent.len() > 0,
    ensures
        steps_to(b, popped(b), None),
        !waits(popped(b), b.independent.last()),
        b.independent.contains(b.independent.last()),
{
    assert(fed(b, MAX_NEW_TRANSACTIONS_PER_BATCH as nat) == b);
    let n = b.independent.len() - 1;
    let best = b.independent[n];
    let c = popped(b);
    assert(best.transaction.transaction.inner.aa is Some);
    assert forall|i: int, j: int|
        #![trigger c.independent[i], c.independent[j]]
        0 <= i < j < c.independent.len() implies c.independent[j].better(c.independent[i]) by {
        assert(b.independent[j].better(b.independent[i]));
    }
    assert(all_aa(c.independent)) by {
        assert forall|i: int| 0 <= i < c.independent.len() implies (
        #[trigger] c.independent[i]).transaction.transaction.inner.aa is Some by {
            assert(b.independent[i] == c.independent[i]);
        }
    }
    assert forall|y: PendingTransaction| #[trigger]
        c.independent.contains(y) implies b.independent.contains(y) by {
        let k = choose|k: int| 0 <= k < c.independent.len() && c.independent[k] == y;
        assert(b.independent[k] == y);
    }
    if c.independent.contains(best) {
        let k = choose|k: int| 0 <= k < c.independent.len() && c.independent[k] == best;
        assert(b.independent[n].better(b.independent[k]));
    }
}

/// What one step does.
proof fn lemma_step(b: BestState)
    requires
        closed_to_updates(b),
    ensures
        steps_to(b, advanced(b).0, advanced(b).1),
    decreases b.independent.len(),
{
    assert(fed(b, MAX_NEW_TRANSACTIONS_PER_BATCH as nat) == b);
    if b.independent.len() > 0 {
        let best = b.independent.last();
        let c = popped(b);
        lemma_popped_steps(b);
        if b.invalid.contains(sequence_of(best)) {
            lemma_step(c);
        } else {
            let t = unlocked(c, best);
            assert(b.independent[b.independent.len() - 1].transaction.transaction.inner.aa is Some);
            let id = id_of(best);
            let next = tx_id(
                id.seq_id,
                (if id.nonce < u64::MAX { id.nonce + 1 } else { u64::MAX as int }) as u64,
            );
            if sequential(best) && c.by_id.contains_key(next) {
                let tx = c.by_id[next];
                lemma_with_ranked(c.independent, tx);
                assert(tx.transaction.transaction.spec_id() == Some(next));
                if id.nonce == u64::MAX {
                    assert(next == id);
                }
                assert forall|y: PendingTransaction| #[trigger]
                    t.independent.contains(y) implies y == tx || c.independent.contains(y) by {
                    let k = choose|k: int| 0 <= k < t.independent.len() && t.independent[k] == y;
                }
                assert(all_aa(t.independent)) by {
                    assert forall|i: int| 0 <= i < t.independent.len() implies (
                    #[trigger] t.independent[i]).transaction.transaction.inner.aa is Some by {
                        let y = t.independent[i];
                        assert(t.independent.contains(y));
                        if y != tx {
                            let k = choose|k: int|
                                0 <= k < c.independent.len() && c.independent[k] == y;
                        }
                    }
                }
            }
        }
    }
}

/// Marking transactions as invalid changes only which sequences are invalid: those of the marked
/// ones with sequential nonces are.
proof fn lemma_all_marked(b: BestState, txs: Seq<ValidPoolTransaction>)
    ensures
        all_marked(b, txs) == (BestState { invalid: all_marked(b, txs).invalid, ..b }),
        b.invalid.subset_of(all_marked(b, txs).invalid),
        forall|i: int|
            0 <= i < txs.len() && (#[trigger] txs[i]).transaction.spec_id() is Some
                && !txs[i].transaction.spec_is_expiring_nonce() ==> all_marked(
                b,
                txs,
            ).invalid.contains(txs[i].transaction.spec_id()->0.seq_id),
    decreases txs.len(),
{
    if txs.len() > 0 {
        let front = txs.drop_last();
        lemma_all_marked(b, front);
        assert forall|i: int|
            0 <= i < txs.len() && (#[trigger] txs[i]).transaction.spec_id() is Some
                && !txs[i].transaction.spec_is_expiring_nonce() implies all_marked(
            b,
            txs,
        ).invalid.contains(txs[i].transaction.spec_id()->0.seq_id) by {
            if i < front.len() {
                assert(front[i] == txs[i]);
            }
        }
    }
}

/// What one round does: marking, then a step.
proof fn lemma_round(b: BestState, txs: Seq<ValidPoolTransaction>)
    requires
        closed_to_updates(b),
    ensures
        ({
            let marked = all_marked(b, txs);
            let (c, tx) = advanced(marked);
            &&& steps_to(marked, c, tx)
            &&& steps_to(b, BestState { invalid: b.invalid, ..c }, tx)
            &&& b.invalid.subset_of(c.invalid)
            &&& told_apart(b) ==> told_apart(c)
            &&& one_per_sequence(b) ==> one_per_sequence(c)
        }),
{
    let marked = all_marked(b, txs);
    lemma_all_marked(b, txs);
    lemma_step(marked);
    let (c, tx) = advanced(marked);
    let bare = BestState { invalid: b.invalid, ..c };
    assert forall|y: PendingTransaction| #[trigger] waits(bare, y) implies waits(b, y) by {
        assert(waits(c, y));
        assert(waits(marked, y));
    }
    assert forall|y: PendingTransaction| #[trigger] waits(c, y) implies waits(b, y) by {
        assert(waits(marked, y));
    }
    if tx is Some {
        assert(!waits(c, tx->0));
    }
    if one_per_sequence(b) {
        assert forall|x: PendingTransaction, y: PendingTransaction|
            #![trigger c.independent.contains(x), c.independent.contains(y)]
            c.independent.contains(x) && c.independent.contains(y) && same_sequence(
                x,
                y,
            ) implies x == y by {
            assert(waits(c, x) && waits(c, y));
            if tx is Some {
                lemma_same_after(b, c, tx->0, x, y);
            }
        }
    }
}

proof fn lemma_same_after(
    b: BestState,
    c: BestState,
    tx: PendingTransaction,
    x: PendingTransaction,
    y: PendingTransaction,
)
    requires
        one_per_sequence(b),
        b.independent.contains(tx),
        !c.independent.contains(tx),
        c.independent.contains(x),
        c.independent.contains(y),
        same_sequence(x, y),
        b.independent.contains(x) || follows(b, tx, x),
        b.independent.contains(y) || follows(b, tx, y),
    ensures
        x == y,
{
    if b.independent.contains(x) && !b.independent.contains(y) {
        assert(same_sequence(tx, x));
    }
    if b.independent.contains(y) && !b.independent.contains(x) {
        assert(same_sequence(tx, y));
    }
    if !b.independent.contains(x) && !b.independent.contains(y) {
        assert(id_of(x) == id_of(y));
    }
}

/// A run yields only transactions that the iterator holds.
proof fn lemma_run_waits(b: BestState, marks: Seq<Seq<ValidPoolTransaction>>)
    requires
        closed_to_updates(b),
    ensures
        run(b, marks).len() == marks.len(),
        forall|j: int|
            0 <= j < marks.len() && (#[trigger] run(b, marks)[j]) is Some ==> waits(
                b,
                run(b, marks)[j]->0,
            ),
    decreases marks.len(),
{
    if marks.len() > 0 {
        lemma_round(b, marks[0]);
        let (c, tx) = advanced(all_marked(b, marks[0]));
        let rest = run(c, marks.drop_first());
        lemma_run_waits(c, marks.drop_first());
        assert forall|j: int|
            0 <= j < marks.len() && (#[trigger] run(b, marks)[j]) is Some implies waits(
            b,
            run(b, marks)[j]->0,
        ) by {
            if j > 0 {
                let y = rest[j - 1]->0;
                assert(waits(c, y));
                assert(waits((BestState { invalid: b.invalid, ..c }), y));
            }
        }
    }
}

/// Of a sequence, nothing but the transaction with the given nonce can be executed next.
spec fn next_is(b: BestState, seq: AASequenceId, nonce: int) -> bool {
    forall|x: PendingTransaction| #[trigger]
        b.independent.contains(x) && sequential(x) && sequence_of(x) == seq ==> nonce_of(x) == nonce
}

/// The step yielded the transaction of the sequence with the given nonce.
spec fn yields_nonce(tx: Option<PendingTransaction>, seq: AASequenceId, nonce: int) -> bool {
    tx is Some && sequential(tx->0) && sequence_of(tx->0) == seq && nonce_of(tx->0) == nonce
}

/// If only one nonce of a sequence can come next, a run yields of that sequence that nonce first,
/// and none below it.
proof fn lemma_run_from(
    b: BestState,
    marks: Seq<Seq<ValidPoolTransaction>>,
    seq: AASequenceId,
    nonce: int,
)
    requires
        closed_to_updates(b),
        one_per_sequence(b),
        next_is(b, seq, nonce),
    ensures
        run(b, marks).len() == marks.len(),
        forall|j: int|
            #![trigger run(b, marks)[j]]
            0 <= j < marks.len() && run(b, marks)[j] is Some && sequential(run(b, marks)[j]->0)
                && sequence_of(run(b, marks)[j]->0) == seq ==> nonce_of(run(b, marks)[j]->0)
                >= nonce && (nonce_of(run(b, marks)[j]->0) == nonce || exists|k: int|
                0 <= k < j && yields_nonce(#[trigger] run(b, marks)[k], seq, nonce)),
    decreases marks.len(),
{
    if marks.len() > 0 {
        lemma_round(b, marks[0]);
        let (c, tx) = advanced(all_marked(b, marks[0]));
        let bare = BestState { invalid: b.invalid, ..c };
        let later = marks.drop_first();
        let rest = run(c, later);
        let all = run(b, marks);
        let here = tx is Some && sequential(tx->0) && sequence_of(tx->0) == seq;
        let expected: int = if here {
            nonce + 1
        } else {
            nonce
        };
        if here {
            assert(b.independent.contains(tx->0));
        }
        assert(next_is(c, seq, expected)) by {
            assert forall|x: PendingTransaction| #[trigger]
                c.independent.contains(x) && sequential(x) && sequence_of(x)
                    == seq implies nonce_of(x) == expected by {
                assert(bare.independent.contains(x));
                if b.independent.contains(x) {
                    if here {
                        assert(same_sequence(x, tx->0));
                        assert(waits(bare, x));
                        assert(x != tx->0);
                    }
                } else {
                    assert(follows(b, tx->0, x));
                }
            }
        }
        lemma_run_from(c, later, seq, expected);
        assert forall|j: int|
            #![trigger all[j]]
            0 <= j < marks.len() && all[j] is Some && sequential(all[j]->0) && sequence_of(
                all[j]->0,
            ) == seq implies nonce_of(all[j]->0) >= nonce && (nonce_of(all[j]->0) == nonce
            || exists|k: int| 0 <= k < j && yields_nonce(#[trigger] all[k], seq, nonce)) by {
            if j > 0 {
                assert(all[j] == rest[j - 1]);
                if here {
                    assert(yields_nonce(all[0], seq, nonce));
                } else if nonce_of(all[j]->0) != nonce {
                    let k = choose|k: int|
                        0 <= k < j - 1 && yields_nonce(#[trigger] rest[k], seq, nonce);
                    assert(yields_nonce(all[k + 1], seq, nonce));
                }
            }
        }
    }
}

/// In a run, the steps `i` and `j` yield transactions of one sequence.
pub open spec fn both_of_sequence(
    steps: Seq<Option<PendingTransaction>>,
    i: int,
    j: int,
) -> bool {
    steps[i] is Some && steps[j] is Some && same_sequence(steps[i]->0, steps[j]->0)
}

/// While it takes up nothing new, the iterator yields no transaction twice, whatever is marked as
/// invalid in between.
pub proof fn law_nothing_twice(
    b: BestState,
    marks: Seq<Seq<ValidPoolTransaction>>,
    i: int,
    j: int,
)
    requires
        closed_to_updates(b),
        told_apart(b),
        0 <= i < j < marks.len(),
    ensures
        run(b, marks).len() == marks.len(),
        run(b, marks)[i] is Some && run(b, marks)[j] is Some ==> (run(
            b,
            marks,
        )[i]->0).transaction.spec_hash() != (run(b, marks)[j]->0).transaction.spec_hash(),
    decreases marks.len(),
{
    lemma_round(b, marks[0]);
    let (c, tx) = advanced(all_marked(b, marks[0]));
    let later = marks.drop_first();
    let rest = run(c, later);
    lemma_run_waits(c, later);
    assert(run(b, marks)[j] == rest[j - 1]);
    if i > 0 {
        law_nothing_twice(c, later, i - 1, j - 1);
        assert(run(b, marks)[i] == rest[i - 1]);
    } else if tx is Some && rest[j - 1] is Some {
        let y = rest[j - 1]->0;
        assert(waits(c, y) && !waits(c, tx->0));
        assert(waits((BestState { invalid: b.invalid, ..c }), y));
        assert(waits(b, y) && waits(b, tx->0));
    }
}

/// While it takes up nothing new, the iterator yields the transactions of a sequence in the order
/// of their nonces and leaves out no nonce between two of them.
pub proof fn law_consecutive_nonces(
    b: BestState,
    marks: Seq<Seq<ValidPoolTransaction>>,
    i: int,
    j: int,
)
    requires
        closed_to_updates(b),
        told_apart(b),
        0 <= i < j < marks.len(),
        both_of_sequence(run(b, marks), i, j),
    ensures
        ({
            let steps = run(b, marks);
            let nonce = nonce_of(steps[i]->0);
            &&& nonce < nonce_of(steps[j]->0)
            &&& nonce_of(steps[j]->0) == nonce + 1 || exists|k: int|
                i < k < j && #[trigger] both_of_sequence(steps, i, k) && nonce_of(steps[k]->0)
                    == nonce + 1
        }),
    decreases marks.len(),
{
    lemma_round(b, marks[0]);
    let (c, tx) = advanced(all_marked(b, marks[0]));
    let bare = BestState { invalid: b.invalid, ..c };
    let later = marks.drop_first();
    let rest = run(c, later);
    let steps = run(b, marks);
    lemma_run_waits(c, later);
    assert(steps[j] == rest[j - 1]);
    if i > 0 {
        assert(steps[i] == rest[i - 1]);
        law_consecutive_nonces(c, later, i - 1, j - 1);
        let nonce = nonce_of(steps[i]->0);
        if nonce_of(steps[j]->0) != nonce + 1 {
            let k = choose|k: int|
                i - 1 < k < j - 1 && #[trigger] both_of_sequence(rest, i - 1, k) && nonce_of(
                    rest[k]->0,
                ) == nonce + 1;
            assert(both_of_sequence(steps, i, k + 1));
        }
    } else {
        let first = tx->0;
        let seq = sequence_of(first);
        let nonce = nonce_of(first);
        assert(next_is(c, seq, nonce + 1)) by {
            assert forall|x: PendingTransaction| #[trigger]
                c.independent.contains(x) && sequential(x) && sequence_of(x)
                    == seq implies nonce_of(x) == nonce + 1 by {
                assert(bare.independent.contains(x));
                if b.independent.contains(x) {
                    assert(same_sequence(x, first));
                    assert(waits(bare, x));
                } else {
                    assert(follows(b, first, x));
                }
            }
        }
        lemma_run_from(c, later, seq, nonce + 1);
        assert(rest[j - 1] is Some);
        if nonce_of(steps[j]->0) != nonce + 1 {
            let k = choose|k: int|
                0 <= k < j - 1 && yields_nonce(#[trigger] rest[k], seq, nonce + 1);
            assert(both_of_sequence(steps, i, k + 1));
        }
    }
}

/// Once a transaction of a sequence is marked as invalid, no later step yields a transaction of that
/// sequence.
pub proof fn law_marked_stay_out(
    b: BestState,
    marks: Seq<Seq<ValidPoolTransaction>>,
    i: int,
    k: int,
    j: int,
)
    requires
        closed_to_updates(b),
        0 <= i <= j < marks.len(),
        0 <= k < marks[i].len(),
        marks[i][k].transaction.spec_id() is Some,
        !marks[i][k].transaction.spec_is_expiring_nonce(),
    ensures
        run(b, marks).len() == marks.len(),
        run(b, marks)[j] is Some ==> sequence_of(run(b, marks)[j]->0)
            != marks[i][k].transaction.spec_id()->0.seq_id,
    decreases marks.len(),
{
    lemma_round(b, marks[0]);
    lemma_all_marked(b, marks[0]);
    let (c, tx) = advanced(all_marked(b, marks[0]));
    let later = marks.drop_first();
    lemma_run_waits(c, later);
    if i > 0 {
        law_marked_stay_out(c, later, i - 1, k, j - 1);
        assert(run(b, marks)[j] == run(c, later)[j - 1]);
    } else {
        lemma_invalid_stay_out(
            all_marked(b, marks[0]),
            marks.update(0, Seq::empty()),
            marks[0][k].transaction.spec_id()->0.seq_id,
            j,
        );
        assert(marks.update(0, Seq::empty()).drop_first() =~= later);
        assert(all_marked(all_marked(b, marks[0]), Seq::empty()) == all_marked(b, marks[0]));
    }
}

/// Nothing of an invalid sequence is yielded in a run.
proof fn lemma_invalid_stay_out(
    b: BestState,
    marks: Seq<Seq<ValidPoolTransaction>>,
    seq: AASequenceId,
    j: int,
)
    requires
        closed_to_updates(b),
        b.invalid.contains(seq),
        0 <= j < marks.len(),
    ensures
        run(b, marks)[j] is Some ==> sequence_of(run(b, marks)[j]->0) != seq,
    decreases marks.len(),
{
    lemma_round(b, marks[0]);
    lemma_all_marked(b, marks[0]);
    let marked = all_marked(b, marks[0]);
    law_invalid_is_not_yielded(marked);
    if j > 0 {
        let c = advanced(marked).0;
        lemma_invalid_stay_out(c, marks.drop_first(), seq, j - 1);
        lemma_run_waits(c, marks.drop_first());
        assert(run(b, marks)[j] == run(c, marks.drop_first())[j - 1]);
    }
}

/// The iterator over a coherent pool holds no transaction twice, so that it yields none twice.
pub proof fn law_snapshot_told_apart(pool: AA2dPool, b: BestState)
    requires
        pool.wf(),
        coherent(pool@),
        b.independent == with_all_ranked(
            with_all_ranked(Seq::empty(), values(pool.independent_transactions.entries@)),
            values(pool.expiring_nonce_txs.entries@),
        ),
        b.by_id == executable(pool@.by_id),
    ensures
        told_apart(b),
{
    reveal(inv);
    let s = pool@;
    let a = pool.independent_transactions.entries@;
    let e = pool.expiring_nonce_txs.entries@;
    let none = Seq::<PendingTransaction>::empty();
    let first = with_all_ranked(none, values(a));
    lemma_with_all_ranked_members(none, values(a));
    lemma_with_all_ranked_members(first, values(e));
    assert forall|x: PendingTransaction| #[trigger] b.independent.contains(x) implies (
    s.independent.contains_key(sequence_of(x)) && s.independent[sequence_of(x)] == x) || (
    !sequential(x) && s.expiring.contains_key(
        x.transaction.transaction.spec_expiring_nonce_hash()->0,
    ) && s.expiring[x.transaction.transaction.spec_expiring_nonce_hash()->0] == x) by {
        let i = choose|i: int| 0 <= i < b.independent.len() && b.independent[i] == x;
        assert(first.contains(b.independent[i]) || values(e).contains(b.independent[i]));
        if values(e).contains(x) {
            let k = choose|k: int| 0 <= k < values(e).len() && values(e)[k] == x;
            lemma_entry_in_map(e, k);
            assert(s.expiring.contains_key(e[k].0));
        } else {
            let m = choose|m: int| 0 <= m < first.len() && first[m] == x;
            assert(values(a).contains(first[m]));
            let k = choose|k: int| 0 <= k < values(a).len() && values(a)[k] == x;
            lemma_entry_in_map(a, k);
            assert(s.independent.contains_key(a[k].0));
        }
    }
    assert forall|x: PendingTransaction| #[trigger] waits(b, x) implies s.by_hash.contains_key(
        x.transaction.spec_hash(),
    ) && s.by_hash[x.transaction.spec_hash()] == x.transaction && ((s.by_id.contains_key(id_of(x))
        && s.by_id[id_of(x)].inner == x) || (s.expiring.contains_key(
        x.transaction.transaction.spec_expiring_nonce_hash()->0,
    ) && s.expiring[x.transaction.transaction.spec_expiring_nonce_hash()->0] == x)) by {
        if b.independent.contains(x) {
            if s.independent.contains_key(sequence_of(x)) && s.independent[sequence_of(x)] == x {
                assert(in_line(s, sequence_of(x)));
                assert(id_of(x) == tx_id(sequence_of(x), id_of(x).nonce));
                assert(s.by_id.contains_key(id_of(x)));
            }
        } else {
            assert(s.by_id.contains_key(id_of(x)));
        }
    }
}

} // verus!
