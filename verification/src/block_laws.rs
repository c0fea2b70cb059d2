//! What the iterators over the best transactions hand out for a block.
use crate::best::{
    awaited, judged, merged, noted_accounts, noted_slots, shared, unaffordable,
    AccountChange, MergeBestTransactions, MergeState, SlotChange, TokenSlot, Verdict,
};
use crate::best_2d::{
    advanced, executable, fed, lemma_with_ranked, marked_invalid, ranked, taken_up, BestState,
};
use crate::best_laws::law_best_is_yielded;
use crate::best_transactions::{BestTransaction, BestTransactions};
use crate::error::InvalidPoolTransactionError;
use crate::eviction_laws::yields_to;
use crate::ids::{tx_id, AA2dTransactionId, AASequenceId};
use crate::insertion_laws::{place_of_tx, sequence_of_tx};
use crate::pending::{InvalidTransactionError, PendingTransaction};
use crate::pool_state::ById;
use crate::primitives::{lemma_word, two_256, Address, U256};
use crate::tip20::tip20_prefixed;
use crate::transaction::{TempoPooledTransaction, ValidPoolTransaction};
use vstd::prelude::*;

verus! {

/// The balance that pays for the transaction is known, and if it went down, it still covers the
/// cost.
pub open spec fn can_pay(balances: Map<TokenSlot, U256>, tx: TempoPooledTransaction) -> bool {
    &&& tx.spec_fee_balance_slot() is Some
    &&& {
        let (token, slot) = tx.spec_fee_balance_slot()->0;
        let key = TokenSlot { token, slot };
        balances.contains_key(key) ==> tx.spec_fee_token_cost() <= balances[key]@
    }
}

/// A transaction is yielded exactly if the balance that pays for it is known and, as far as it went
/// down, covers the cost. It is passed over exactly if the balance is unknown; and it is refused
/// exactly if the balance went below the cost, with both told.
pub proof fn law_verdict(balances: Map<TokenSlot, U256>, tx: ValidPoolTransaction)
    ensures
        judged(balances, tx) is Yield <==> can_pay(balances, tx.transaction),
        judged(balances, tx) is Skip <==> tx.transaction.spec_fee_balance_slot() is None,
        judged(balances, tx) matches Verdict::Unaffordable { balance, cost } ==> {
            let (token, slot) = tx.transaction.spec_fee_balance_slot()->0;
            &&& balances.contains_key(TokenSlot { token, slot })
            &&& balance == balances[TokenSlot { token, slot }]
            &&& cost@ == tx.transaction.spec_fee_token_cost()
            &&& balance@ < cost@
        },
{
    let cost = tx.transaction.spec_fee_token_cost();
    assert(0 <= cost < two_256());
    lemma_word(cost);
}

/// A higher balance never holds back a transaction that a lower one pays for.
pub proof fn law_more_balance_pays_as_well(
    balances: Map<TokenSlot, U256>,
    key: TokenSlot,
    higher: U256,
    tx: ValidPoolTransaction,
)
    requires
        balances.contains_key(key),
        balances[key]@ <= higher@,
        judged(balances, tx) is Yield,
    ensures
        judged(balances.insert(key, higher), tx) is Yield,
        judged(balances.remove(key), tx) is Yield,
{
}

/// Whatever is yielded can be paid for.
pub proof fn law_yielded_can_pay<I: BestTransactions>(
    s: I::State,
    balances: Map<TokenSlot, U256>,
)
    requires
        I::sound(s),
        awaited::<I>(s, balances).1 is Some,
    ensures
        can_pay(balances, shared(awaited::<I>(s, balances).1->0).transaction),
{
    crate::best::law_yielded_is_affordable::<I>(s, balances);
    law_verdict(balances, shared(awaited::<I>(s, balances).1->0));
}

/// A transaction that can be paid for is yielded as it comes. One that cannot, as the balance went
/// below its cost, is marked as invalid for lack of funds, and one whose balance is unknown is
/// passed over; then the next one is looked at. Nothing is yielded only if there is no next one.
pub proof fn law_next_that_can_pay<I: BestTransactions>(
    s: I::State,
    balances: Map<TokenSlot, U256>,
)
    requires
        I::sound(s),
    ensures
        ({
            let (next, yielded) = I::stepped(s);
            match yielded {
                None => awaited::<I>(s, balances) == (next, None::<BestTransaction>),
                Some(tx) => {
                    &&& can_pay(balances, shared(tx).transaction) ==> awaited::<I>(s, balances) == (
                        next,
                        Some(tx),
                    )
                    &&& shared(tx).transaction.spec_fee_balance_slot() is None ==> awaited::<I>(
                        s,
                        balances,
                    ) == awaited::<I>(next, balances)
                    &&& shared(tx).transaction.spec_fee_balance_slot() is Some && !can_pay(
                        balances,
                        shared(tx).transaction,
                    ) ==> exists|got: U256, expected: U256|
                        got@ < expected@ && expected@ == shared(tx).transaction.spec_fee_token_cost()
                            && awaited::<I>(s, balances) == #[trigger] awaited::<I>(
                            I::after_invalid(
                                next,
                                shared(tx),
                                InvalidPoolTransactionError::Consensus(
                                    InvalidTransactionError::InsufficientFunds { got, expected },
                                ),
                            ),
                            balances,
                        )
                },
            }
        }),
{
    let (next, yielded) = I::stepped(s);
    match yielded {
        None => {},
        Some(tx) => {
            law_verdict(balances, shared(tx));
            match judged(balances, shared(tx)) {
                Verdict::Unaffordable { balance, cost } => {
                    let marked = I::after_invalid(next, shared(tx), unaffordable(balance, cost));
                    assert(awaited::<I>(s, balances) == awaited::<I>(marked, balances));
                },
                _ => {},
            }
        },
    }
}

/// The change is one of the given slot of the given token.
pub open spec fn touches(
    accounts: Seq<AccountChange>,
    i: int,
    k: int,
    key: TokenSlot,
) -> bool {
    &&& 0 <= i < accounts.len()
    &&& accounts[i].address == key.token
    &&& 0 <= k < accounts[i].storage@.len()
    &&& accounts[i].storage@[k].slot == key.slot
}

/// The change lowers the value of the given slot of the given token.
pub open spec fn lowers(accounts: Seq<AccountChange>, i: int, k: int, key: TokenSlot) -> bool {
    touches(accounts, i, k, key) && accounts[i].storage@[k].present_value@
        < accounts[i].storage@[k].original_value@
}

proof fn lemma_noted_slots(
    balances: Map<TokenSlot, U256>,
    token: Address,
    changes: Seq<SlotChange>,
    key: TokenSlot,
)
    ensures
        key.token != token ==> noted_slots(balances, token, changes).contains_key(key)
            == balances.contains_key(key) && noted_slots(balances, token, changes)[key]
            == balances[key],
        (forall|k: int| 0 <= k < changes.len() ==> (#[trigger] changes[k]).slot != key.slot)
            ==> noted_slots(balances, token, changes).contains_key(key) == balances.contains_key(
            key,
        ) && noted_slots(balances, token, changes)[key] == balances[key],
        key.token == token ==> (noted_slots(balances, token, changes).contains_key(key)
            <==> balances.contains_key(key) || exists|k: int|
            0 <= k < changes.len() && (#[trigger] changes[k]).slot == key.slot
                && changes[k].present_value@ < changes[k].original_value@),
    decreases changes.len(),
{
    if changes.len() > 0 {
        let front = changes.drop_last();
        let n = changes.len() - 1;
        lemma_noted_slots(balances, token, front, key);
        assert forall|k: int| 0 <= k < front.len() implies #[trigger] front[k] == changes[k] by {}
        if key.token == token {
            if exists|k: int|
                0 <= k < front.len() && (#[trigger] front[k]).slot == key.slot
                    && front[k].present_value@ < front[k].original_value@ {
                let k = choose|k: int|
                    0 <= k < front.len() && (#[trigger] front[k]).slot == key.slot
                        && front[k].present_value@ < front[k].original_value@;
                assert(changes[k].slot == key.slot);
            }
            if exists|k: int|
                0 <= k < changes.len() && (#[trigger] changes[k]).slot == key.slot
                    && changes[k].present_value@ < changes[k].original_value@ {
                let k = choose|k: int|
                    0 <= k < changes.len() && (#[trigger] changes[k]).slot == key.slot
                        && changes[k].present_value@ < changes[k].original_value@;
                if k < n {
                    assert(front[k].slot == key.slot);
                }
            }
            if changes[n].slot == key.slot {
                assert(changes[n] == changes.last());
            }
        }
        if forall|k: int| 0 <= k < changes.len() ==> (#[trigger] changes[k]).slot != key.slot {
            assert(changes[n].slot != key.slot);
            assert forall|k: int| 0 <= k < front.len() implies (#[trigger] front[k]).slot
                != key.slot by {
                assert(changes[k].slot != key.slot);
            }
        }
    }
}

/// A balance is tracked exactly if it was, or if an executed transaction lowered it: only slots of
/// TIP-20 tokens are balances. One that nothing touches stays as it was.
pub proof fn law_lowered_balances_are_tracked(
    balances: Map<TokenSlot, U256>,
    accounts: Seq<AccountChange>,
    key: TokenSlot,
)
    ensures
        noted_accounts(balances, accounts).contains_key(key) <==> balances.contains_key(key) || (
        tip20_prefixed(key.token) && exists|i: int, k: int| #[trigger] lowers(accounts, i, k, key)),
        (!tip20_prefixed(key.token) || forall|i: int, k: int| !#[trigger] touches(accounts, i, k, key))
            ==> noted_accounts(balances, accounts)[key] == balances[key],
    decreases accounts.len(),
{
    if accounts.len() > 0 {
        let front = accounts.drop_last();
        let n = accounts.len() - 1;
        let last = accounts[n];
        let before = noted_accounts(balances, front);
        law_lowered_balances_are_tracked(balances, front, key);
        lemma_noted_slots(before, last.address, last.storage@, key);
        assert forall|i: int, k: int| i < n implies #[trigger] lowers(front, i, k, key) == lowers(
            accounts,
            i,
            k,
            key,
        ) by {}
        if exists|i: int, k: int| #[trigger] lowers(front, i, k, key) {
            let (i, k) = choose|i: int, k: int| #[trigger] lowers(front, i, k, key);
            assert(lowers(accounts, i, k, key));
        }
        if exists|i: int, k: int| #[trigger] lowers(accounts, i, k, key) {
            let (i, k) = choose|i: int, k: int| #[trigger] lowers(accounts, i, k, key);
            if i < n {
                assert(lowers(front, i, k, key));
            } else {
                assert(last.storage@[k].slot == key.slot);
            }
        }
        if last.address == key.token && exists|k: int|
            0 <= k < last.storage@.len() && (#[trigger] last.storage@[k]).slot == key.slot
                && last.storage@[k].present_value@ < last.storage@[k].original_value@ {
            let k = choose|k: int|
                0 <= k < last.storage@.len() && (#[trigger] last.storage@[k]).slot == key.slot
                    && last.storage@[k].present_value@ < last.storage@[k].original_value@;
            assert(lowers(accounts, n, k, key));
        }
        if forall|i: int, k: int| !#[trigger] touches(accounts, i, k, key) {
            assert forall|i: int, k: int| !#[trigger] touches(front, i, k, key) by {
                assert(!touches(accounts, i, k, key));
            }
            if last.address == key.token {
                assert forall|k: int| 0 <= k < last.storage@.len() implies (
                #[trigger] last.storage@[k]).slot != key.slot by {
                    assert(!touches(accounts, n, k, key));
                }
            }
        }
    }
}

/// A balance that is tracked has the value that was seen last.
pub proof fn law_tracked_balance_is_the_last_seen(
    balances: Map<TokenSlot, U256>,
    token: Address,
    changes: Seq<SlotChange>,
    k: int,
)
    requires
        0 <= k < changes.len(),
        forall|l: int| k < l < changes.len() ==> (#[trigger] changes[l]).slot != changes[k].slot,
        noted_slots(balances, token, changes).contains_key(
            (TokenSlot { token, slot: changes[k].slot }),
        ),
    ensures
        noted_slots(balances, token, changes)[(TokenSlot { token, slot: changes[k].slot })]
            == changes[k].present_value,
    decreases changes.len(),
{
    let front = changes.drop_last();
    let n = changes.len() - 1;
    if k < n {
        assert(changes[n].slot != changes[k].slot);
        assert forall|l: int| k < l < front.len() implies (#[trigger] front[l]).slot
            != front[k].slot by {
            assert(changes[l].slot != changes[k].slot);
        }
        law_tracked_balance_is_the_last_seen(balances, token, front, k);
    }
}

/// While the iterator takes up nothing new, what it yields pays at least as much as every other
/// transaction that could be executed next and is not held back, and of those that pay the same it
/// was submitted first.
pub proof fn law_yielded_pays_most(b: BestState, other: PendingTransaction)
    requires
        b.feed is None,
        ranked(b.independent),
        advanced(b).1 is Some,
        b.independent.contains(other),
        other.transaction.transaction.inner.aa is Some,
        !b.invalid.contains(sequence_of_tx(other.transaction.transaction)),
    ensures
        yields_to(other, advanced(b).1->0),
{
    law_best_is_yielded(b);
    let i = choose|i: int| 0 <= i < b.independent.len() && b.independent[i] == other;
    assert(crate::best_2d::sequence_of(b.independent[i]) == sequence_of_tx(
        other.transaction.transaction,
    ));
}

/// A transaction that became pending while the iterator is in use never comes before one that was
/// yielded already would have: if it pays more than the last one yielded, it cannot be executed next
/// on its own account. Otherwise it can, unless the one before it in its sequence is still to come.
pub proof fn law_newcomer_does_not_overtake(b: BestState, tx: PendingTransaction)
    requires
        ranked(b.independent),
        tx.transaction.transaction.inner.aa is Some,
    ensures
        ({
            let t = tx.transaction.transaction;
            let after = taken_up(b, tx);
            let expires = t.inner.aa->0.nonce_key@ == two_256() - 1;
            let overtakes = b.last_priority matches Some(last) && tx.priority.rank() > last.rank();
            let waits = !expires && t.inner.nonce > 0 && b.by_id.contains_key(
                tx_id(sequence_of_tx(t), (t.inner.nonce - 1) as u64),
            );
            &&& overtakes || waits ==> after.independent == b.independent
            &&& !overtakes && !waits ==> after.independent.contains(tx) || exists|i: int|
                0 <= i < b.independent.len() && tx.ties(#[trigger] b.independent[i])
            &&& forall|x: PendingTransaction| #[trigger]
                b.independent.contains(x) ==> after.independent.contains(x)
            &&& forall|x: PendingTransaction| #[trigger]
                after.independent.contains(x) ==> b.independent.contains(x) || x == tx
            &&& expires ==> after.by_id == b.by_id
            &&& !expires ==> after.by_id == b.by_id.insert(place_of_tx(t), tx)
            &&& after.invalid == b.invalid
        }),
{
    let after = taken_up(b, tx);
    lemma_with_ranked(b.independent, tx);
    assert forall|x: PendingTransaction| #[trigger]
        b.independent.contains(x) implies after.independent.contains(x) by {
        let i = choose|i: int| 0 <= i < b.independent.len() && b.independent[i] == x;
        assert(b.independent[i] == x);
    }
    assert forall|x: PendingTransaction| #[trigger] after.independent.contains(x) implies
        b.independent.contains(x) || x == tx by {
        let i = choose|i: int| 0 <= i < after.independent.len() && after.independent[i] == x;
        assert(after.independent[i] == x);
    }
}

/// In one go the iterator takes up sixteen new transactions, or all if there are fewer.
pub proof fn law_batches(b: BestState, n: nat)
    requires
        b.feed is Some,
    ensures
        fed(b, n).feed is Some,
        fed(b, n).feed->0 == (if n <= b.feed->0.len() {
            b.feed->0.skip(n as int)
        } else {
            Seq::<PendingTransaction>::empty()
        }),
        crate::best_2d::MAX_NEW_TRANSACTIONS_PER_BATCH == 16,
    decreases n,
{
    let feed = b.feed->0;
    if n > 0 && feed.len() > 0 {
        let c = taken_up((BestState { feed: Some(feed.drop_first()), ..b }), feed[0]);
        law_batches(c, (n - 1) as nat);
        if n <= feed.len() {
            assert(feed.drop_first().skip(n - 1) =~= feed.skip(n as int));
        }
    } else if n == 0 {
        assert(feed.skip(0) =~= feed);
    } else {
        assert(feed =~= Seq::empty());
        if n <= feed.len() {
            assert(feed.skip(n as int) =~= feed);
        }
    }
}

/// Marking a transaction with a sequential nonce as invalid holds back its sequence and no other;
/// marking one with an expiring nonce holds back nothing.
pub proof fn law_mark_holds_back_one_sequence(
    b: BestState,
    tx: ValidPoolTransaction,
    seq: AASequenceId,
)
    requires
        tx.transaction.inner.aa is Some,
    ensures
        ({
            let t = tx.transaction;
            let expires = t.inner.aa->0.nonce_key@ == two_256() - 1;
            let after = marked_invalid(b, tx);
            &&& after.invalid.contains(seq) <==> b.invalid.contains(seq) || (!expires && seq
                == sequence_of_tx(t))
            &&& after.independent == b.independent
            &&& after.by_id == b.by_id
            &&& after.feed == b.feed
        }),
{
}

/// A transaction that turned out to be invalid is marked in the pool that it came from: one with a
/// nonce key of its own in the pool for two-dimensional nonces, any other in the protocol pool. The
/// other pool is left alone.
pub proof fn law_mark_reaches_its_pool<P: BestTransactions>(
    m: MergeState<P::State>,
    tx: ValidPoolTransaction,
    kind: InvalidPoolTransactionError,
)
    ensures
        ({
            let after = <MergeBestTransactions<P> as BestTransactions>::after_invalid(m, tx, kind);
            let keyed = tx.transaction.inner.aa is Some && tx.transaction.inner.aa->0.nonce_key@
                != 0;
            &&& keyed ==> after.protocol == m.protocol && after.aa_2d == marked_invalid(m.aa_2d, tx)
            &&& !keyed ==> after.aa_2d == m.aa_2d && after.protocol == P::after_invalid(
                m.protocol,
                tx,
                kind,
            )
            &&& after.next_protocol == m.next_protocol
            &&& after.next_aa_2d == m.next_aa_2d
        }),
{
}

/// Of the pool, the pending transactions are handed to the iterator, each as it stands there.
pub proof fn law_pending_are_executable(by_id: ById, id: AA2dTransactionId)
    ensures
        executable(by_id).contains_key(id) <==> by_id.contains_key(id) && by_id[id].is_pending,
        executable(by_id).contains_key(id) ==> executable(by_id)[id] == by_id[id].inner,
{
}

/// Each transaction of the protocol pool is compared with those of the other pool by what it pays
/// above the base fee.
pub proof fn law_merged_priority<P: BestTransactions>(m: MergeState<P::State>)
    requires
        m.next_protocol is None,
        P::stepped(m.protocol).1 is Some,
        m.next_aa_2d is None,
        advanced(m.aa_2d).1 is None,
    ensures
        ({
            let tx = P::stepped(m.protocol).1->0;
            merged::<P>(m).1 == Some((tx, crate::pending::tip(tx.transaction, m.base_fee)))
        }),
{
}

} // verus!
