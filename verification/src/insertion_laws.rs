//! What handing a transaction to the pool does.
use crate::hardfork::TempoHardfork;
use crate::ids::{tx_id, AA2dTransactionId, AASequenceId};
use crate::insertion::{
    accepted, answers, bare, placed, refusal, AddedTransaction,
};
use crate::pending::{
    falls_short, law_replacement_pays_more, tip, underpriced, InvalidTransactionError,
    PendingTransaction, PoolErrorKind,
};
use crate::pool_state::{
    inv, lemma_run_end_spans, queued_between, recorded, run_end, sender_total, ById, PoolState,
};
use crate::primitives::two_256;
use crate::transaction::{TempoPooledTransaction, ValidPoolTransaction};
use std::sync::Arc;
use vstd::prelude::*;

verus! {

/// The transaction is one whose nonce expires: the largest nonce key marks it as such from T1 on.
pub open spec fn nonce_expires(tx: TempoPooledTransaction, hardfork: TempoHardfork) -> bool {
    &&& tx.inner.aa is Some
    &&& tx.inner.aa->0.nonce_key@ == two_256() - 1
    &&& hardfork != TempoHardfork::Genesis
    &&& hardfork != TempoHardfork::T0
}

/// The transaction behind a handle.
spec fn pooled(tx: Arc<ValidPoolTransaction>) -> TempoPooledTransaction {
    tx.transaction
}

/// The sequence of a transaction: its sender and its nonce key.
pub open spec fn sequence_of_tx(tx: TempoPooledTransaction) -> AASequenceId {
    AASequenceId { address: tx.inner.sender, nonce_key: tx.inner.aa->0.nonce_key }
}

/// The place of a transaction: its sequence and its nonce.
pub open spec fn place_of_tx(tx: TempoPooledTransaction) -> AA2dTransactionId {
    AA2dTransactionId { seq_id: sequence_of_tx(tx), nonce: tx.inner.nonce }
}

/// All nonces of a sequence from `lo` up to, not including, `hi` have a transaction.
pub open spec fn no_gap(by_id: ById, seq: AASequenceId, lo: int, hi: int) -> bool {
    forall|n: u64| lo <= n < hi ==> by_id.contains_key(#[trigger] tx_id(seq, n))
}

/// Each refusal has its reason, and without a reason there is none: the pool has the transaction,
/// or one of the same expiring nonce hash; its nonce is used up; it would replace another one and
/// does not pay enough more; or its sender has as many transactions as it may have and it replaces
/// none of them. In this order the first that holds is told.
pub proof fn law_refusal_has_a_reason(
    s: PoolState,
    tx: Arc<ValidPoolTransaction>,
    on_chain_nonce: u64,
    hardfork: TempoHardfork,
)
    requires
        inv(s),
        tx.transaction.inner.aa is Some,
    ensures
        ({
            let t = tx.transaction;
            let refused = refusal(s, tx, on_chain_nonce, hardfork);
            let expires = nonce_expires(t, hardfork);
            let known = s.by_hash.contains_key(t.inner.hash) || (expires && s.expiring.contains_key(
                t.inner.aa->0.expiring_nonce_hash,
            ));
            let used_up = !expires && t.inner.nonce < on_chain_nonce;
            let replaces = !expires && s.by_id.contains_key(place_of_tx(t));
            let full = sender_total(s, t.inner.sender) >= s.config.max_txs_per_sender;
            &&& refused is None <==> !known && !used_up && (replaces ==> !underpriced(
                s.by_id[place_of_tx(t)].inner.transaction.transaction,
                t,
                s.config.price_bump_config,
            )) && (!replaces ==> !full)
            &&& known <==> refused == Some((PoolErrorKind::AlreadyImported, false))
            &&& !known && used_up <==> refused == Some(
                (
                    PoolErrorKind::InvalidTransaction(
                        (InvalidTransactionError::NonceNotConsistent {
                            tx: t.inner.nonce,
                            state: on_chain_nonce,
                        }),
                    ),
                    false,
                ),
            )
            &&& !known && !used_up && !replaces && full <==> refused is Some && (refused->0).0
                == PoolErrorKind::SpammerExceededCapacity(t.inner.sender)
        }),
{
    reveal(inv);
    assert(recorded(s.senders, tx.transaction.inner.sender) == sender_total(
        s,
        tx.transaction.inner.sender,
    ));
    assert(tx.transaction.spec_id() == Some(place_of_tx(tx.transaction)));
}

/// Whenever a transaction takes the place of another one, it pays the configured percentage more,
/// up to one unit: in its maximum fee, and in its priority fee where both set one. In particular it
/// never pays less.
pub proof fn law_replacing_pays_more(
    s: PoolState,
    tx: Arc<ValidPoolTransaction>,
    on_chain_nonce: u64,
    hardfork: TempoHardfork,
    base_fee: u64,
    answer: AddedTransaction,
    replaced: Arc<ValidPoolTransaction>,
)
    requires
        tx.transaction.inner.aa is Some,
        refusal(s, tx, on_chain_nonce, hardfork) is None,
        answers(s, tx, on_chain_nonce, hardfork, base_fee, answer),
        match answer {
            AddedTransaction::Pending(pending) => pending.replaced == Some(replaced),
            AddedTransaction::Parked { replaced: other, .. } => other == Some(replaced),
        },
    ensures
        ({
            let old = replaced.transaction.inner;
            let new = tx.transaction.inner;
            let percent = if old.ty == 3 {
                s.config.price_bump_config.replace_blob_tx_price_bump as int
            } else {
                s.config.price_bump_config.default_price_bump as int
            };
            &&& s.by_id.contains_key(place_of_tx(tx.transaction))
            &&& s.by_id[place_of_tx(tx.transaction)].inner.transaction == replaced
            &&& new.max_fee_per_gas >= old.max_fee_per_gas
            &&& 100 * (new.max_fee_per_gas + 1) > old.max_fee_per_gas * (100 + percent)
            &&& (old.max_priority_fee_per_gas matches Some(a)
                && new.max_priority_fee_per_gas matches Some(b) && a != 0 && b != 0) ==> 100 * (
            new.max_priority_fee_per_gas->0 + 1) > old.max_priority_fee_per_gas->0 * (100 + percent)
        }),
{
    let id = place_of_tx(pooled(tx));
    assert(tx.transaction.spec_id() == Some(id));
    law_replacement_pays_more(
        pooled(s.by_id[id].inner.transaction),
        pooled(tx),
        s.config.price_bump_config,
    );
}

/// A transaction that would take the place of another one is refused for its price exactly if it
/// does not pay enough more, whatever the sender has in the pool; the one that is there stays.
pub proof fn law_underpriced_is_refused(
    s: PoolState,
    tx: Arc<ValidPoolTransaction>,
    on_chain_nonce: u64,
    hardfork: TempoHardfork,
)
    requires
        tx.transaction.inner.aa is Some,
        !nonce_expires(tx.transaction, hardfork),
        !s.by_hash.contains_key(tx.transaction.inner.hash),
        tx.transaction.inner.nonce >= on_chain_nonce,
        s.by_id.contains_key(place_of_tx(tx.transaction)),
    ensures
        ({
            let old = s.by_id[place_of_tx(tx.transaction)].inner.transaction.transaction.inner;
            let new = tx.transaction.inner;
            let percent = if old.ty == 3 {
                s.config.price_bump_config.replace_blob_tx_price_bump as int
            } else {
                s.config.price_bump_config.default_price_bump as int
            };
            let refused = refusal(s, tx, on_chain_nonce, hardfork);
            &&& falls_short(new.max_fee_per_gas as int, old.max_fee_per_gas as int, percent)
                ==> refused == Some((PoolErrorKind::ReplacementUnderpriced, true))
            &&& refused is None || refused == Some((PoolErrorKind::ReplacementUnderpriced, true))
            &&& refused is Some ==> {
                ||| falls_short(new.max_fee_per_gas as int, old.max_fee_per_gas as int, percent)
                ||| (old.max_priority_fee_per_gas matches Some(a)
                    && new.max_priority_fee_per_gas matches Some(b) && a != 0 && b != 0
                    && falls_short(b as int, a as int, percent))
                ||| old.max_fee_per_blob_gas is Some
            }
        }),
{
    let id = place_of_tx(pooled(tx));
    assert(tx.transaction.spec_id() == Some(id));
    law_replacement_pays_more(
        pooled(s.by_id[id].inner.transaction),
        pooled(tx),
        s.config.price_bump_config,
    );
}

proof fn lemma_run_end_covers(by_id: ById, seq: AASequenceId, from: int, hi: int)
    requires
        0 <= from <= hi <= u64::MAX + 1,
    ensures
        hi <= run_end(by_id, seq, from) <==> no_gap(by_id, seq, from, hi),
    decreases hi - from,
{
    if from < hi {
        if by_id.contains_key(tx_id(seq, from as u64)) {
            lemma_run_end_covers(by_id, seq, from + 1, hi);
            if no_gap(by_id, seq, from + 1, hi) {
                assert(no_gap(by_id, seq, from, hi)) by {
                    assert forall|n: u64| from <= n < hi implies by_id.contains_key(
                        #[trigger] tx_id(seq, n),
                    ) by {
                        if n == from {
                            assert(n == from as u64);
                        }
                    }
                }
            }
            if no_gap(by_id, seq, from, hi) {
                assert(no_gap(by_id, seq, from + 1, hi));
            }
        } else if no_gap(by_id, seq, from, hi) {
            assert(by_id.contains_key(tx_id(seq, from as u64)));
        }
    } else {
        lemma_run_end_from(by_id, seq, from);
    }
}

proof fn lemma_run_end_from(by_id: ById, seq: AASequenceId, from: int)
    requires
        0 <= from,
    ensures
        from <= run_end(by_id, seq, from),
    decreases u64::MAX + 1 - from,
{
    if from <= u64::MAX && by_id.contains_key(tx_id(seq, from as u64)) {
        lemma_run_end_from(by_id, seq, from + 1);
    }
}

/// Where a transaction with a sequential nonce ends up, before the pool is brought within its
/// limits.
///
/// It stands under its sender, nonce key and nonce, with what it pays above the base fee as its
/// priority and the next number. It is pending exactly if no nonce is missing between the one on
/// chain and its own; a transaction behind it that was queued becomes pending exactly if no nonce
/// is missing any more between the one on chain and its own. Everything else is as it was. It is
/// next in line exactly if its nonce is the one on chain.
pub proof fn law_where_it_is_placed(
    s: PoolState,
    tx: Arc<ValidPoolTransaction>,
    on_chain_nonce: u64,
    hardfork: TempoHardfork,
    base_fee: u64,
)
    requires
        tx.transaction.inner.aa is Some,
        !nonce_expires(tx.transaction, hardfork),
        on_chain_nonce <= tx.transaction.inner.nonce,
    ensures
        ({
            let t = accepted(s, tx, on_chain_nonce, hardfork, base_fee);
            let id = place_of_tx(tx.transaction);
            let seq = sequence_of_tx(tx.transaction);
            &&& t.by_id.contains_key(id)
            &&& t.by_id[id].inner.transaction == tx
            &&& t.by_id[id].inner.priority == tip(tx.transaction, base_fee)
            &&& t.by_id[id].inner.submission_id == s.submission_id
            &&& t.by_id[id].is_pending <==> no_gap(
                s.by_id,
                seq,
                on_chain_nonce as int,
                id.nonce as int,
            )
            &&& forall|other: AA2dTransactionId| #[trigger]
                t.by_id.contains_key(other) <==> s.by_id.contains_key(other) || other == id
            &&& forall|other: AA2dTransactionId| #[trigger]
                t.by_id.contains_key(other) && other != id ==> {
                    &&& t.by_id[other].inner == s.by_id[other].inner
                    &&& t.by_id[other].is_pending <==> s.by_id[other].is_pending || (other.seq_id
                        == seq && id.nonce < other.nonce && no_gap(
                        t.by_id,
                        seq,
                        on_chain_nonce as int,
                        other.nonce as int,
                    ))
                }
            &&& id.nonce == on_chain_nonce ==> t.independent.contains_key(seq)
                && t.independent[seq].transaction == tx
            &&& id.nonce != on_chain_nonce ==> t.independent.contains_key(seq)
                == s.independent.contains_key(seq) && t.independent[seq] == s.independent[seq]
            &&& forall|other: AASequenceId| #[trigger]
                t.independent.contains_key(other) && other != seq ==> s.independent.contains_key(
                    other,
                ) && t.independent[other] == s.independent[other]
            &&& t.expiring == s.expiring
            &&& t.config == s.config
            &&& s.submission_id < u64::MAX ==> t.submission_id == s.submission_id + 1
        }),
{
    let t = accepted(s, tx, on_chain_nonce, hardfork, base_fee);
    let id = place_of_tx(pooled(tx));
    let seq = sequence_of_tx(pooled(tx));
    let from = on_chain_nonce as int;
    let by_id = placed(s, tx, id, base_fee);
    let end = run_end(by_id, seq, from);
    assert(tx.transaction.spec_id() == Some(id));
    assert(id == tx_id(seq, id.nonce));
    lemma_run_end_covers(by_id, seq, from, id.nonce + 1);
    assert(no_gap(by_id, seq, from, id.nonce + 1) <==> no_gap(
        s.by_id,
        seq,
        from,
        id.nonce as int,
    )) by {
        if no_gap(by_id, seq, from, id.nonce + 1) {
            assert forall|n: u64| from <= n < id.nonce implies s.by_id.contains_key(
                #[trigger] tx_id(seq, n),
            ) by {
                assert(by_id.contains_key(tx_id(seq, n)));
            }
        }
        if no_gap(s.by_id, seq, from, id.nonce as int) {
            assert forall|n: u64| from <= n < id.nonce + 1 implies by_id.contains_key(
                #[trigger] tx_id(seq, n),
            ) by {
                if n < id.nonce {
                    assert(s.by_id.contains_key(tx_id(seq, n)));
                }
            }
        }
    }
    assert forall|other: AA2dTransactionId| #[trigger]
        t.by_id.contains_key(other) && other != id implies t.by_id[other].inner
        == s.by_id[other].inner && (t.by_id[other].is_pending <==> s.by_id[other].is_pending || (
    other.seq_id == seq && id.nonce < other.nonce && no_gap(
        t.by_id,
        seq,
        from,
        other.nonce as int,
    ))) by {
        if other.seq_id == seq {
            assert(other == tx_id(seq, other.nonce));
            if other.nonce > id.nonce {
                lemma_run_end_covers(by_id, seq, from, other.nonce + 1);
                if no_gap(t.by_id, seq, from, other.nonce as int) {
                    assert forall|n: u64| from <= n < other.nonce + 1 implies by_id.contains_key(
                        #[trigger] tx_id(seq, n),
                    ) by {
                        if n < other.nonce {
                            assert(t.by_id.contains_key(tx_id(seq, n)));
                        }
                    }
                }
                if no_gap(by_id, seq, from, other.nonce + 1) {
                    assert forall|n: u64| from <= n < other.nonce implies t.by_id.contains_key(
                        #[trigger] tx_id(seq, n),
                    ) by {
                        assert(by_id.contains_key(tx_id(seq, n)));
                    }
                }
            }
        }
    }
}

proof fn lemma_queued_between_members(by_id: ById, seq: AASequenceId, lo: int, hi: int)
    requires
        0 <= lo,
        hi <= u64::MAX + 1,
    ensures
        forall|tx: PendingTransaction| #[trigger]
            queued_between(by_id, seq, lo, hi).contains(tx) <==> exists|n: u64|
                lo <= n < hi && !by_id[#[trigger] tx_id(seq, n)].is_pending && by_id[tx_id(
                    seq,
                    n,
                )].inner == tx,
    decreases hi - lo,
{
    let all = queued_between(by_id, seq, lo, hi);
    if lo < hi {
        let below = queued_between(by_id, seq, lo, hi - 1);
        let last = tx_id(seq, (hi - 1) as u64);
        lemma_queued_between_members(by_id, seq, lo, hi - 1);
        assert forall|tx: PendingTransaction| #[trigger] all.contains(tx) <==> exists|n: u64|
            lo <= n < hi && !by_id[#[trigger] tx_id(seq, n)].is_pending && by_id[tx_id(seq, n)].inner
                == tx by {
            if all.contains(tx) {
                let i = choose|i: int| 0 <= i < all.len() && all[i] == tx;
                if i < below.len() {
                    assert(below[i] == tx);
                    assert(below.contains(tx));
                } else {
                    assert(!by_id[tx_id(seq, (hi - 1) as u64)].is_pending);
                }
            }
            if exists|n: u64|
                lo <= n < hi && !by_id[#[trigger] tx_id(seq, n)].is_pending && by_id[tx_id(seq, n)].inner
                    == tx {
                let n = choose|n: u64|
                    lo <= n < hi && !by_id[#[trigger] tx_id(seq, n)].is_pending && by_id[tx_id(
                        seq,
                        n,
                    )].inner == tx;
                if n < hi - 1 {
                    assert(below.contains(tx));
                    let i = choose|i: int| 0 <= i < below.len() && below[i] == tx;
                    assert(all[i] == tx);
                } else {
                    assert(n == (hi - 1) as u64);
                    assert(all[below.len() as int] == tx);
                }
            }
        }
    }
}

/// What the pool answers fits what it did: a transaction is told as pending exactly if no nonce is
/// missing before it, and then the transactions told as promoted are those that were queued before
/// and are pending now. A transaction that is told as replaced had the same place.
pub proof fn law_answer_fits(
    s: PoolState,
    tx: Arc<ValidPoolTransaction>,
    on_chain_nonce: u64,
    hardfork: TempoHardfork,
    base_fee: u64,
    answer: AddedTransaction,
)
    requires
        tx.transaction.inner.aa is Some,
        !nonce_expires(tx.transaction, hardfork),
        on_chain_nonce <= tx.transaction.inner.nonce,
        answers(s, tx, on_chain_nonce, hardfork, base_fee, answer),
    ensures
        ({
            let t = accepted(s, tx, on_chain_nonce, hardfork, base_fee);
            let id = place_of_tx(tx.transaction);
            let seq = sequence_of_tx(tx.transaction);
            let before = if s.by_id.contains_key(id) {
                Some(s.by_id[id].inner.transaction)
            } else {
                None
            };
            match answer {
                AddedTransaction::Pending(pending) => {
                    &&& no_gap(s.by_id, seq, on_chain_nonce as int, id.nonce as int)
                    &&& pending.transaction == tx
                    &&& pending.replaced == before
                    &&& forall|other: AA2dTransactionId| #[trigger]
                        s.by_id.contains_key(other) && other != id && !s.by_id[other].is_pending
                            && t.by_id[other].is_pending ==> pending.promoted@.contains(
                            s.by_id[other].inner.transaction,
                        )
                    &&& forall|i: int|
                        0 <= i < pending.promoted@.len() ==> exists|other: AA2dTransactionId|
                            #[trigger]
                            s.by_id.contains_key(other) && other != id && other.seq_id == seq
                                && other.nonce > id.nonce && !s.by_id[other].is_pending
                                && t.by_id[other].is_pending && s.by_id[other].inner.transaction
                                == #[trigger] pending.promoted@[i]
                },
                AddedTransaction::Parked { transaction, replaced, .. } => {
                    &&& !no_gap(s.by_id, seq, on_chain_nonce as int, id.nonce as int)
                    &&& transaction == tx
                    &&& replaced == before
                },
            }
        }),
{
    let t = accepted(s, tx, on_chain_nonce, hardfork, base_fee);
    let id = place_of_tx(pooled(tx));
    let seq = sequence_of_tx(pooled(tx));
    let from = on_chain_nonce as int;
    let by_id = placed(s, tx, id, base_fee);
    let end = run_end(by_id, seq, from);
    law_where_it_is_placed(s, tx, on_chain_nonce, hardfork, base_fee);
    assert(tx.transaction.spec_id() == Some(id));
    assert(id == tx_id(seq, id.nonce));
    assert(t.by_id[id].is_pending <==> id.nonce < end);
    lemma_run_end_spans(by_id, seq, from);
    match answer {
        AddedTransaction::Pending(pending) => {
            let list = queued_between(by_id, seq, id.nonce + 1, end);
            lemma_queued_between_members(by_id, seq, id.nonce + 1, end);
            assert(pending.promoted@ == bare(list));
            assert forall|other: AA2dTransactionId| #[trigger]
                s.by_id.contains_key(other) && other != id && !s.by_id[other].is_pending
                    && t.by_id[other].is_pending implies pending.promoted@.contains(
                s.by_id[other].inner.transaction,
            ) by {
                assert(t.by_id.contains_key(other));
                assert(other == tx_id(seq, other.nonce));
                assert(by_id[other] == s.by_id[other]);
                let tx2 = by_id[tx_id(seq, other.nonce)].inner;
                assert(id.nonce + 1 <= other.nonce < end);
                assert(list.contains(tx2));
                let i = choose|i: int| 0 <= i < list.len() && list[i] == tx2;
                assert(bare(list)[i] == tx2.transaction);
            }
            assert forall|i: int| 0 <= i < pending.promoted@.len() implies exists|
                other: AA2dTransactionId,
            | #[trigger]
                s.by_id.contains_key(other) && other != id && other.seq_id == seq && other.nonce
                    > id.nonce && !s.by_id[other].is_pending && t.by_id[other].is_pending
                    && s.by_id[other].inner.transaction == #[trigger] pending.promoted@[i] by {
                assert(list.contains(list[i]));
                let n = choose|n: u64|
                    id.nonce + 1 <= n < end && !by_id[#[trigger] tx_id(seq, n)].is_pending
                        && by_id[tx_id(seq, n)].inner == list[i];
                let other = tx_id(seq, n);
                lemma_run_end_covers(by_id, seq, from, n + 1);
                assert(by_id.contains_key(other));
                assert(s.by_id.contains_key(other));
                assert(t.by_id.contains_key(other));
            }
        },
        AddedTransaction::Parked { .. } => {},
    }
}

/// An expiring nonce transaction is always pending, has what it pays above the base fee as its
/// priority, and touches no other transaction.
pub proof fn law_expiring_is_placed(
    s: PoolState,
    tx: Arc<ValidPoolTransaction>,
    on_chain_nonce: u64,
    hardfork: TempoHardfork,
    base_fee: u64,
    answer: AddedTransaction,
)
    requires
        nonce_expires(tx.transaction, hardfork),
        answers(s, tx, on_chain_nonce, hardfork, base_fee, answer),
    ensures
        ({
            let t = accepted(s, tx, on_chain_nonce, hardfork, base_fee);
            let hash = tx.transaction.inner.aa->0.expiring_nonce_hash;
            &&& t.by_id == s.by_id
            &&& t.independent == s.independent
            &&& t.expiring.contains_key(hash)
            &&& t.expiring[hash].transaction == tx
            &&& t.expiring[hash].priority == tip(tx.transaction, base_fee)
            &&& t.expiring[hash].submission_id == s.submission_id
            &&& forall|other: crate::primitives::B256| #[trigger]
                t.expiring.contains_key(other) && other != hash ==> s.expiring.contains_key(other)
                    && t.expiring[other] == s.expiring[other]
            &&& t.expiring_slots.contains_key(tx.transaction.inner.expiring_nonce_seen_slot)
            &&& t.expiring_slots[tx.transaction.inner.expiring_nonce_seen_slot] == hash
            &&& answer is Pending
            &&& answer->Pending_0.transaction == tx
            &&& answer->Pending_0.replaced is None
            &&& answer->Pending_0.promoted@.len() == 0
        }),
{
}

} // verus!
