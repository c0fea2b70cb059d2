//! What a new block means for the pool.
use crate::addresses::SystemAddresses;
use crate::block_update::{
    by_fee_token, kept, law_only_paused_leave, law_paused_leave, max_expiry, pause_plan, plan_view,
    revalidated, sends_away, tokens_with,
};
use crate::keychain::{
    law_limit_update_insert, law_revoked_insert, limit_updated, revoked,
};
use crate::maintain::{
    buckets_exact, due, expiries_inv, expiry_of, keeps_expiry,
    law_removed_are_not_due, law_track_keeps_exact, lemma_tracking_inv, with_tracked,
    without_all_tracked, Expiries, PendingStalenessTracker, TempoPoolState,
};
use crate::maintenance::{
    expiry_next, found_stale, invalidation_next, pause_next, paused_next, planned,
    policy_next, quote_next, resumed, staleness_next, unpause_next, ActionModel, MaintenanceReply,
    PoolMaintenance, Stage,
};
use crate::pool_updates::{
    no_updates, with_log, with_logs, PoolEvent, PoolLog, TempoPoolUpdates, Updates,
};
use crate::primitives::{Address, TxHash, B256};
use crate::tip20::tip20_prefixed;
use crate::transaction::{TempoPooledTransaction, ValidPoolTransaction};
use std::sync::Arc;
use vstd::prelude::*;

verus! {

/// When the transaction itself expires, if it does.
pub open spec fn own_expiry(tx: TempoPooledTransaction) -> Option<u64> {
    if tx.inner.aa is Some {
        tx.inner.aa->0.valid_before
    } else {
        None
    }
}

/// A transaction outlives neither its own expiry nor that of the key that signed it: it expires with
/// the first of the two that is set, and does not expire only if neither is.
pub proof fn law_expiry_is_the_first(tx: TempoPooledTransaction)
    ensures
        own_expiry(tx) matches Some(t) ==> expiry_of(tx) is Some && expiry_of(tx)->0 <= t,
        tx.key_expiry matches Some(Some(t)) ==> expiry_of(tx) is Some && expiry_of(tx)->0 <= t,
        expiry_of(tx) matches Some(t) ==> own_expiry(tx) == Some(t) || tx.key_expiry == Some(
            Some(t),
        ),
{
}

/// Tracking a transaction tracks it with the first of its expiries, so with none that is later than
/// its own or that of its key. It stands in the bucket of that time. A transaction that does not
/// expire is not tracked. Every other one is tracked as before.
pub proof fn law_tracked_until_it_expires(e: Expiries, tx: TempoPooledTransaction)
    ensures
        ({
            let after = with_tracked(e, tx);
            let hash = tx.inner.hash;
            &&& own_expiry(tx) matches Some(t) ==> after.by_hash.contains_key(hash)
                && after.by_hash[hash] <= t
            &&& tx.key_expiry matches Some(Some(t)) ==> after.by_hash.contains_key(hash)
                && after.by_hash[hash] <= t
            &&& expiry_of(tx) is Some ==> {
                &&& own_expiry(tx) == Some(after.by_hash[hash]) || tx.key_expiry == Some(
                    Some(after.by_hash[hash]),
                )
                &&& after.buckets.contains_key(after.by_hash[hash])
                &&& after.buckets[after.by_hash[hash]].contains(hash)
            }
            &&& own_expiry(tx) is None && !(tx.key_expiry matches Some(Some(_))) ==> after == e
            &&& forall|other: TxHash| #[trigger]
                after.by_hash.contains_key(other) && other != hash ==> e.by_hash.contains_key(other)
                    && after.by_hash[other] == e.by_hash[other]
            &&& forall|other: TxHash| #[trigger]
                e.by_hash.contains_key(other) ==> after.by_hash.contains_key(other)
        }),
{
}

/// A block evicts what expires up to three seconds after it.
pub proof fn law_eviction_buffer(tip_timestamp: u64)
    ensures
        tip_timestamp + 3 <= u64::MAX ==> max_expiry(tip_timestamp) == tip_timestamp + 3,
        tip_timestamp + 3 > u64::MAX ==> max_expiry(tip_timestamp) == u64::MAX,
{
}

/// A transaction that is tracked is reported as expired by a block exactly if it is not mined and
/// expires, itself or with its key, no later than three seconds after the block.
pub proof fn law_expired_is_reported(
    e: Expiries,
    tx: TempoPooledTransaction,
    mined: Seq<TxHash>,
    tip_timestamp: u64,
)
    requires
        expiries_inv(e),
        buckets_exact(e),
        keeps_expiry(e, tx),
        own_expiry(tx) is Some || tx.key_expiry matches Some(Some(_)),
    ensures
        due(
            without_all_tracked(with_tracked(e, tx), mined),
            max_expiry(tip_timestamp),
            tx.inner.hash,
        ) <==> !mined.contains(tx.inner.hash) && ((own_expiry(tx) matches Some(t) && t
            <= tip_timestamp + 3) || (tx.key_expiry matches Some(Some(t)) && t <= tip_timestamp
            + 3)),
{
    let after = with_tracked(e, tx);
    let expiry = expiry_of(tx)->0;
    lemma_tracking_inv(e, tx.inner.hash, expiry);
    law_track_keeps_exact(e, tx.inner.hash, expiry);
    law_removed_are_not_due(after, mined, max_expiry(tip_timestamp), tx.inner.hash);
}

/// Stale transactions are looked for at once, and then whenever an interval has passed since the
/// last look.
pub proof fn law_when_staleness_is_due(tracker: PendingStalenessTracker, now: u64)
    ensures
        tracker.last_snapshot_time is None ==> tracker.is_due(now),
        tracker.last_snapshot_time matches Some(last) ==> (last <= now ==> (tracker.is_due(now)
            <==> last + tracker.interval_secs <= now)),
        tracker.last_snapshot_time matches Some(last) ==> (last > now ==> (tracker.is_due(now)
            <==> tracker.interval_secs == 0)),
{
}

/// A transaction that the first of two looks sees for the first time is stale at the second exactly
/// if it is pending at both. It is never stale at the first.
pub proof fn law_stale_after_two_looks(
    a: TempoPoolState,
    first: Seq<TxHash>,
    t1: u64,
    stale1: Seq<TxHash>,
    b: TempoPoolState,
    second: Seq<TxHash>,
    t2: u64,
    stale2: Seq<TxHash>,
    c: TempoPoolState,
    h: TxHash,
)
    requires
        a.pending_staleness.is_due(t1),
        b.pending_staleness.is_due(t2),
        found_stale(a, first, t1, stale1, b),
        found_stale(b, second, t2, stale2, c),
        !a.pending_staleness.previous_pending@.contains_key(h),
    ensures
        !stale1.contains(h),
        stale2.contains(h) <==> first.contains(h) && second.contains(h),
        b.pending_staleness.last_snapshot_time == Some(t1),
        stale2.contains(h) ==> !c.expiries().by_hash.contains_key(h),
{
    assert(first.to_set().contains(h) == first.contains(h));
    if stale2.contains(h) {
        lemma_untracked(b.expiries(), stale2, h);
    }
}

proof fn lemma_untracked(e: Expiries, hashes: Seq<TxHash>, h: TxHash)
    requires
        hashes.contains(h),
    ensures
        !without_all_tracked(e, hashes).by_hash.contains_key(h),
    decreases hashes.len(),
{
    if hashes.len() > 0 {
        let i = choose|i: int| 0 <= i < hashes.len() && hashes[i] == h;
        if i < hashes.len() - 1 {
            assert(hashes.drop_last()[i] == h);
            lemma_untracked(e, hashes.drop_last(), h);
        }
    }
}

proof fn lemma_push_has<A>(s: Seq<A>, x: A, y: A)
    ensures
        s.push(x).contains(y) <==> s.contains(y) || y == x,
{
    if s.contains(y) {
        let i = choose|i: int| 0 <= i < s.len() && s[i] == y;
        assert(s.push(x)[i] == y);
    }
    assert(s.push(x)[s.len() as int] == x);
    if s.push(x).contains(y) {
        let i = choose|i: int| 0 <= i < s.push(x).len() && s.push(x)[i] == y;
        if i < s.len() {
            assert(s[i] == y);
        }
    }
}

/// The tokens that are paused are those of which an event says so, and the same of those that are
/// unpaused.
pub proof fn law_paused_tokens(events: Seq<(Address, bool)>, paused: bool, token: Address)
    ensures
        tokens_with(events, paused).contains(token) <==> events.contains((token, paused)),
    decreases events.len(),
{
    if events.len() > 0 {
        let front = events.drop_last();
        law_paused_tokens(front, paused, token);
        assert(events =~= front.push(events.last()));
        lemma_push_has(front, events.last(), (token, paused));
        lemma_push_has(tokens_with(front, paused), events.last().0, token);
    }
}

/// The transaction with the given hash names the token as its fee token.
pub open spec fn names(
    txs: Seq<Arc<ValidPoolTransaction>>,
    i: int,
    token: Address,
    hash: TxHash,
) -> bool {
    &&& 0 <= i < txs.len()
    &&& txs[i].transaction.inner.fee_token == Some(token)
    &&& txs[i].transaction.inner.hash == hash
}

proof fn lemma_grouped(txs: Seq<Arc<ValidPoolTransaction>>, token: Address, hash: TxHash)
    ensures
        (by_fee_token(txs).contains_key(token) && by_fee_token(txs)[token].contains(hash))
            <==> exists|i: int| #[trigger] names(txs, i, token, hash),
    decreases txs.len(),
{
    if txs.len() > 0 {
        let front = txs.drop_last();
        let n = txs.len() - 1;
        lemma_grouped(front, token, hash);
        let before = by_fee_token(front);
        assert(txs.last() == txs[n]);
        if names(txs, n, token, hash) {
            if before.contains_key(token) {
                lemma_push_has(before[token], hash, hash);
            } else {
                lemma_push_has(Seq::<TxHash>::empty(), hash, hash);
            }
        }
        if exists|i: int| #[trigger] names(front, i, token, hash) {
            let i = choose|i: int| #[trigger] names(front, i, token, hash);
            assert(names(txs, i, token, hash));
        }
        if exists|i: int| #[trigger] names(txs, i, token, hash) {
            let i = choose|i: int| #[trigger] names(txs, i, token, hash);
            if i < n {
                assert(names(front, i, token, hash));
            }
        }
        assert forall|x: TxHash| true implies (before.contains_key(token)
            ==> #[trigger] before[token].push(x).contains(hash) == (before[token].contains(hash)
            || hash == x)) by {
            if before.contains_key(token) {
                lemma_push_has(before[token], x, hash);
            }
        }
        assert forall|x: TxHash| true implies #[trigger] Seq::<TxHash>::empty().push(x).contains(hash)
            == (hash == x) by {
            lemma_push_has(Seq::<TxHash>::empty(), x, hash);
        }
    }
}

/// A transaction leaves the pool for a pause exactly if an event says that a token is paused which
/// the transaction names as its fee token.
pub proof fn law_who_leaves_for_a_pause(
    events: Seq<(Address, bool)>,
    txs: Seq<Arc<ValidPoolTransaction>>,
    token: Address,
    hash: TxHash,
)
    ensures
        sends_away(pause_plan(tokens_with(events, true), by_fee_token(txs)), token, hash)
            <==> events.contains((token, true)) && exists|i: int| #[trigger]
            names(txs, i, token, hash),
{
    let tokens = tokens_with(events, true);
    let by_token = by_fee_token(txs);
    law_paused_tokens(events, true, token);
    lemma_grouped(txs, token, hash);
    if sends_away(pause_plan(tokens, by_token), token, hash) {
        law_only_paused_leave(tokens, by_token, token, hash);
    }
    if tokens.contains(token) && by_token.contains_key(token) && by_token[token].contains(hash) {
        law_paused_leave(tokens, by_token, token, hash);
    }
}

/// The fee token of the transaction with the given hash was resolved to one of the tokens.
pub open spec fn resolved_to_one(
    txs: Seq<Arc<ValidPoolTransaction>>,
    i: int,
    tokens: Set<Address>,
    hash: TxHash,
) -> bool {
    &&& 0 <= i < txs.len()
    &&& txs[i].transaction.resolved_fee_token is Some
    &&& tokens.contains(txs[i].transaction.resolved_fee_token->0)
    &&& txs[i].transaction.inner.hash == hash
}

/// A transaction is validated again after a change of tokens exactly if its fee token was resolved
/// to one of them.
pub proof fn law_who_is_validated_again(
    txs: Seq<Arc<ValidPoolTransaction>>,
    tokens: Set<Address>,
    hash: TxHash,
)
    ensures
        revalidated(txs, tokens).contains(hash) <==> exists|i: int| #[trigger]
            resolved_to_one(txs, i, tokens, hash),
    decreases txs.len(),
{
    if txs.len() > 0 {
        let front = txs.drop_last();
        let n = txs.len() - 1;
        law_who_is_validated_again(front, tokens, hash);
        assert(txs.last() == txs[n]);
        assert forall|x: TxHash| #[trigger]
            revalidated(front, tokens).push(x).contains(hash) == (revalidated(
                front,
                tokens,
            ).contains(hash) || hash == x) by {
            lemma_push_has(revalidated(front, tokens), x, hash);
        }
        if exists|i: int| #[trigger] resolved_to_one(front, i, tokens, hash) {
            let i = choose|i: int| #[trigger] resolved_to_one(front, i, tokens, hash);
            assert(resolved_to_one(txs, i, tokens, hash));
        }
        if exists|i: int| #[trigger] resolved_to_one(txs, i, tokens, hash) {
            let i = choose|i: int| #[trigger] resolved_to_one(txs, i, tokens, hash);
            if i < n {
                assert(resolved_to_one(front, i, tokens, hash));
            }
        }
        if revalidated(txs, tokens).contains(hash) && !revalidated(front, tokens).contains(hash) {
            assert(resolved_to_one(txs, n, tokens, hash));
        }
    }
}

/// Of the expired transactions those that are still in the pool are removed, and no others.
pub proof fn law_only_pooled_are_removed(hashes: Seq<TxHash>, marks: Seq<bool>, hash: TxHash)
    requires
        marks.len() >= hashes.len(),
    ensures
        kept(hashes, marks).contains(hash) <==> exists|i: int|
            0 <= i < hashes.len() && marks[i] && #[trigger] hashes[i] == hash,
    decreases hashes.len(),
{
    if hashes.len() > 0 {
        let front = hashes.drop_last();
        let n = hashes.len() - 1;
        law_only_pooled_are_removed(front, marks, hash);
        lemma_push_has(kept(front, marks), hashes[n], hash);
        if exists|i: int| 0 <= i < front.len() && marks[i] && #[trigger] front[i] == hash {
            let i = choose|i: int| 0 <= i < front.len() && marks[i] && #[trigger] front[i] == hash;
            assert(hashes[i] == hash);
        }
        if exists|i: int| 0 <= i < hashes.len() && marks[i] && #[trigger] hashes[i] == hash {
            let i = choose|i: int|
                0 <= i < hashes.len() && marks[i] && #[trigger] hashes[i] == hash;
            if i < n {
                assert(front[i] == hash);
            }
        }
        if marks[n] && hashes[n] == hash {
            assert(hashes[n] == hash);
        }
    }
}

/// What is asked for at first is what the block calls for, and nothing that it calls for is passed
/// over: expired transactions, then pauses, then unpauses in their order, and then the dropping of
/// what was put aside and expired.
pub proof fn law_what_is_asked_for(m: PoolMaintenance, from: int)
    ensures
        m.updates@.expired_txs.len() > 0 ==> expiry_next(m) == (
            Stage::CheckingExpired,
            ActionModel::CheckPooled(m.updates@.expired_txs),
        ),
        m.updates@.expired_txs.len() == 0 ==> expiry_next(m) == pause_next(m),
        (exists|i: int|
            0 <= i < m.updates@.pause_events.len() && (#[trigger] m.updates@.pause_events[i]).1)
            ==> pause_next(m) == (Stage::ListingForPause, ActionModel::ListTransactions),
        (forall|i: int|
            0 <= i < m.updates@.pause_events.len() ==> !(
            #[trigger] m.updates@.pause_events[i]).1) ==> pause_next(m) == unpause_next(m, 0),
        0 <= from ==> match unpause_next(m, from) {
            (Stage::Unpausing(next), action) => {
                &&& m.updates@.pause_events.len() <= usize::MAX ==> {
                    &&& from < next <= m.updates@.pause_events.len()
                    &&& !m.updates@.pause_events[next - 1].1
                    &&& action == ActionModel::Unpause(m.updates@.pause_events[next - 1].0)
                    &&& forall|i: int|
                        from <= i < next - 1 ==> (#[trigger] m.updates@.pause_events[i]).1
                }
            },
            (stage, action) => {
                &&& stage == Stage::EvictingPaused
                &&& action == ActionModel::EvictPaused(m.tip_timestamp)
                &&& forall|i: int|
                    from <= i < m.updates@.pause_events.len() ==> (
                    #[trigger] m.updates@.pause_events[i]).1
            },
        },
    decreases m.updates@.pause_events.len() - from,
{
    let events = m.updates@.pause_events;
    if 0 <= from < events.len() && events[from].1 {
        law_what_is_asked_for(m, from + 1);
    }
    if exists|i: int| 0 <= i < events.len() && (#[trigger] events[i]).1 {
        let i = choose|i: int| 0 <= i < events.len() && (#[trigger] events[i]).1;
        law_paused_tokens(events, true, events[i].0);
        assert(events[i] == (events[i].0, true));
        assert(tokens_with(events, true).contains(events[i].0));
    }
    if forall|i: int| 0 <= i < events.len() ==> !(#[trigger] events[i]).1 {
        if tokens_with(events, true).len() > 0 {
            let token = tokens_with(events, true)[0];
            law_paused_tokens(events, true, token);
            assert(tokens_with(events, true).contains(token));
            let i = choose|i: int| 0 <= i < events.len() && events[i] == (token, true);
            assert(!events[i].1);
        }
    }
}

/// What is asked for after the dropping of what was put aside, and after the nonces: each step if the
/// block has changes that call for it, and the next one if not.
pub proof fn law_what_is_asked_for_later(m: PoolMaintenance)
    ensures
        ({
            let u = m.updates@;
            let by_key = (exists|a: Address| #[trigger] u.revoked_keys.contains_key(a)) || (exists|
                a: Address,
            | #[trigger]
                u.spending_limit_changes.contains_key(a)) || (exists|a: Address| #[trigger]
                u.spending_limit_spends.contains_key(a)) || (exists|a: Address| #[trigger]
                u.key_authorization_witness_burns.contains_key(a));
            let otherwise = (exists|a: Address| #[trigger] u.validator_token_changes.contains_key(a))
                || (exists|a: Address| #[trigger] u.user_token_changes.contains(a))
                || u.blacklist_additions.len() > 0 || u.whitelist_removals.len() > 0 || (exists|
                a: Address,
            | #[trigger]
                u.fee_balance_changes.contains_key(a));
            &&& by_key ==> paused_next(m) == (
                Stage::EvictingPausedInvalidated,
                ActionModel::EvictPausedInvalidated,
            )
            &&& !by_key ==> paused_next(m) == policy_next(m)
            &&& by_key || otherwise ==> invalidation_next(m) == (
                Stage::EvictingInvalidated,
                ActionModel::EvictInvalidated,
            )
            &&& !by_key && !otherwise ==> invalidation_next(m) == staleness_next(m)
            &&& (exists|a: Address| #[trigger] u.transfer_policy_updates.contains(a))
                ==> policy_next(m) == (Stage::ListingForPolicy, ActionModel::ListTransactions)
            &&& (forall|a: Address| !#[trigger] u.transfer_policy_updates.contains(a))
                ==> policy_next(m) == quote_next(m)
            &&& (exists|a: Address| #[trigger] u.quote_token_updates.contains(a)) ==> quote_next(m)
                == (Stage::ListingForQuote, ActionModel::ListTransactions)
            &&& (forall|a: Address| !#[trigger] u.quote_token_updates.contains(a)) ==> quote_next(m)
                == (Stage::UpdatingNonces, ActionModel::UpdateNonces)
            &&& m.state.pending_staleness.is_due(m.tip_timestamp) ==> staleness_next(m) == (
                Stage::ListingPending,
                ActionModel::ListPending,
            )
            &&& !m.state.pending_staleness.is_due(m.tip_timestamp) ==> staleness_next(m) == (
                Stage::Idle,
                ActionModel::Finished,
            )
        }),
{
    let u = m.updates@;
    law_what_calls_for_a_scan(u);
    if forall|a: Address| !#[trigger] u.transfer_policy_updates.contains(a) {
        assert(u.transfer_policy_updates =~= Set::empty());
    }
    if forall|a: Address| !#[trigger] u.quote_token_updates.contains(a) {
        assert(u.quote_token_updates =~= Set::empty());
    }
}

/// A block without anything that could make a transaction invalid has none removed for it.
pub proof fn law_quiet_blocks_evict_nothing(m: PoolMaintenance)
    requires
        m.updates@ == (Updates { expired_txs: m.updates@.expired_txs, ..no_updates() }),
    ensures
        invalidation_next(m) == staleness_next(m),
        paused_next(m) == (Stage::UpdatingNonces, ActionModel::UpdateNonces),
        m.updates@.expired_txs.len() == 0 ==> expiry_next(m) == (
            Stage::EvictingPaused,
            ActionModel::EvictPaused(m.tip_timestamp),
        ),
{
}

/// Transactions that were taken out for a pause are put aside with their own expiries, under the
/// paused token; those taken out for a changed token are added again, all of them and no others. Both
/// are tracked no longer.
pub proof fn law_what_becomes_of_removed(
    a: PoolMaintenance,
    txs: Vec<Arc<ValidPoolTransaction>>,
    b: PoolMaintenance,
    action: ActionModel,
    i: int,
)
    requires
        resumed(a, MaintenanceReply::Removed(txs), b, action),
        0 <= i < txs@.len(),
    ensures
        a.stage matches Stage::RemovingPaused(token) ==> {
            &&& action matches ActionModel::Pause(paused, entries) && paused == token
                && entries.len() == txs@.len() && entries[i].tx == txs@[i]
                && entries[i].valid_before == own_expiry(txs@[i].transaction)
            &&& b.stage == Stage::Pausing
        },
        a.stage is RemovingForPolicy ==> action == ActionModel::Readd(txs@) && b.stage
            == Stage::ReaddingForPolicy,
        a.stage is RemovingForQuote ==> action == ActionModel::Readd(txs@) && b.stage
            == Stage::ReaddingForQuote,
        a.stage is RemovingPaused || a.stage is RemovingForPolicy || a.stage is RemovingForQuote
            ==> !b.state.expiries().by_hash.contains_key(txs@[i].transaction.inner.hash),
{
    let hashes = crate::maintenance::hashes_of(txs@);
    assert(hashes[i] == txs@[i].spec_hash());
    assert(hashes.contains(hashes[i]));
    lemma_untracked(a.state.expiries(), hashes, hashes[i]);
}

/// Of the expired transactions those that the pool still has are removed; if it has none of them,
/// none is.
pub proof fn law_expired_are_removed(
    a: PoolMaintenance,
    marks: Vec<bool>,
    b: PoolMaintenance,
    action: ActionModel,
    hash: TxHash,
)
    requires
        resumed(a, MaintenanceReply::Pooled(marks), b, action),
        a.stage is CheckingExpired,
        marks@.len() == a.updates@.expired_txs.len(),
    ensures
        (action matches ActionModel::Remove(hashes) && hashes.contains(hash)) <==> exists|i: int|
            0 <= i < marks@.len() && marks@[i] && #[trigger] a.updates@.expired_txs[i] == hash,
        action is Remove ==> b.stage == Stage::RemovingExpired,
{
    let left = kept(a.updates@.expired_txs, marks@);
    law_only_pooled_are_removed(a.updates@.expired_txs, marks@, hash);
    if left.len() == 0 {
        assert(!left.contains(hash));
    }
    lemma_no_removal(b);
}

proof fn lemma_no_removal(m: PoolMaintenance)
    ensures
        !(pause_next(m).1 is Remove),
        !(unpause_next(m, 0).1 is Remove),
        !(quote_next(m).1 is Remove),
{
    lemma_unpause_removes_none(m, 0);
}

proof fn lemma_unpause_removes_none(m: PoolMaintenance, from: int)
    ensures
        !(unpause_next(m, from).1 is Remove),
        !(unpause_next(m, from).0 is RemovingPaused),
    decreases m.updates@.pause_events.len() - from,
{
    if 0 <= from < m.updates@.pause_events.len() && m.updates@.pause_events[from].1 {
        lemma_unpause_removes_none(m, from + 1);
    }
}

/// The transactions whose fee token was resolved to one with a changed policy are taken out for it,
/// those whose fee token was resolved to one with a changed quote token for that, and no others.
pub proof fn law_changed_tokens_take_out(
    a: PoolMaintenance,
    txs: Vec<Arc<ValidPoolTransaction>>,
    b: PoolMaintenance,
    action: ActionModel,
    hash: TxHash,
)
    requires
        resumed(a, MaintenanceReply::Transactions(txs), b, action),
        a.stage is ListingForPolicy || a.stage is ListingForQuote,
    ensures
        a.stage is ListingForPolicy ==> ((action matches ActionModel::Remove(hashes)
            && hashes.contains(hash)) <==> exists|i: int| #[trigger]
            resolved_to_one(txs@, i, a.updates@.transfer_policy_updates, hash)),
        a.stage is ListingForQuote ==> ((action matches ActionModel::Remove(hashes)
            && hashes.contains(hash)) <==> exists|i: int| #[trigger]
            resolved_to_one(txs@, i, a.updates@.quote_token_updates, hash)),
        action is Remove && a.stage is ListingForPolicy ==> b.stage == Stage::RemovingForPolicy,
        action is Remove && a.stage is ListingForQuote ==> b.stage == Stage::RemovingForQuote,
{
    let policies = a.updates@.transfer_policy_updates;
    let quotes = a.updates@.quote_token_updates;
    law_who_is_validated_again(txs@, policies, hash);
    law_who_is_validated_again(txs@, quotes, hash);
    if revalidated(txs@, policies).len() == 0 {
        assert(!revalidated(txs@, policies).contains(hash));
    }
    if revalidated(txs@, quotes).len() == 0 {
        assert(!revalidated(txs@, quotes).contains(hash));
    }
    lemma_no_removal(a);
}

/// The machine is about to take the transaction out for the token, or will be.
pub open spec fn will_take_out(
    b: PoolMaintenance,
    action: ActionModel,
    token: Address,
    hash: TxHash,
) -> bool {
    ||| b.stage == Stage::RemovingPaused(token) && action is Remove && action->Remove_0.contains(hash)
    ||| exists|i: int|
        0 <= i < b.plan@.len() && (#[trigger] b.plan@[i]).0 == token && b.plan@[i].1@.contains(hash)
}

/// Once the transactions of the pool are known, those are going to be taken out for a token that
/// name it as their fee token while an event says that it is paused, and no others.
pub proof fn law_paused_tokens_take_out(
    a: PoolMaintenance,
    txs: Vec<Arc<ValidPoolTransaction>>,
    b: PoolMaintenance,
    action: ActionModel,
    token: Address,
    hash: TxHash,
)
    requires
        resumed(a, MaintenanceReply::Transactions(txs), b, action),
        a.stage is ListingForPause,
    ensures
        will_take_out(b, action, token, hash) <==> a.updates@.pause_events.contains((token, true))
            && exists|i: int| #[trigger] names(txs@, i, token, hash),
{
    let model = pause_plan(tokens_with(a.updates@.pause_events, true), by_fee_token(txs@));
    let plan = choose|plan: Seq<(Address, Vec<TxHash>)>|
        #![trigger plan_view(plan)]
        plan_view(plan) == model && planned(a, plan, b, action);
    law_who_leaves_for_a_pause(a.updates@.pause_events, txs@, token, hash);
    lemma_unpause_removes_none(a, 0);
    if sends_away(model, token, hash) {
        let i = choose|i: int|
            0 <= i < model.len() && (#[trigger] model[i]).0 == token && model[i].1.contains(hash);
        assert(plan_view(plan)[i] == (plan[i].0, plan[i].1@));
        if i > 0 {
            assert(b.plan@[i - 1] == plan[i]);
        }
    }
    if will_take_out(b, action, token, hash) {
        if plan.len() > 0 && plan[0].0 == token && plan[0].1@.contains(hash) {
            assert(model[0] == (plan[0].0, plan[0].1@));
            assert(model[0].0 == token);
        } else {
            let i = choose|i: int|
                0 <= i < b.plan@.len() && (#[trigger] b.plan@[i]).0 == token
                    && b.plan@[i].1@.contains(hash);
            assert(b.plan@[i] == plan[i + 1]);
            assert(model[i + 1] == (plan[i + 1].0, plan[i + 1].1@));
        }
    }
}

/// After the transactions of one paused token, those of the next are taken out, and only when none is
/// left the unpaused tokens are looked at.
pub proof fn law_paused_tokens_in_turn(
    a: PoolMaintenance,
    b: PoolMaintenance,
    action: ActionModel,
)
    requires
        resumed(a, MaintenanceReply::Done, b, action),
        a.stage is Pausing,
    ensures
        a.plan@.len() > 0 ==> b.stage == Stage::RemovingPaused(a.plan@[0].0) && action
            == ActionModel::Remove(a.plan@[0].1@) && b.plan@ == a.plan@.drop_first(),
        a.plan@.len() == 0 ==> (b.stage, action) == unpause_next(a, 0),
{
    if a.plan@.len() > 0 {
        assert(a.plan@.remove(0) =~= a.plan@.drop_first());
    }
}

/// When the pending transactions are looked at, those that were there at the last look are removed
/// as stale, if it is time to look.
pub proof fn law_stale_are_removed(
    a: PoolMaintenance,
    pending: Vec<TxHash>,
    b: PoolMaintenance,
    action: ActionModel,
    hash: TxHash,
)
    requires
        resumed(a, MaintenanceReply::Pending(pending), b, action),
        a.stage is ListingPending,
        a.state.pending_staleness.is_due(a.tip_timestamp),
    ensures
        (action matches ActionModel::Remove(hashes) && hashes.contains(hash)) <==> pending@.contains(
            hash,
        ) && a.state.pending_staleness.previous_pending@.contains_key(hash),
{
    let stale = choose|stale: Seq<TxHash>| #[trigger]
        found_stale(a.state, pending@, a.tip_timestamp, stale, b.state) && (b.stage, action) == (
        if stale.len() > 0 {
            (Stage::RemovingStale, ActionModel::Remove(stale))
        } else {
            (Stage::Idle, ActionModel::Finished)
        });
    if stale.len() == 0 {
        assert(!stale.contains(hash));
    }
}

/// The nonces are always updated, then the liquidity cache, and only then transactions are removed
/// as invalid and stale ones looked for. What was removed as invalid is tracked no longer.
pub proof fn law_end_of_a_block(
    a: PoolMaintenance,
    reply: MaintenanceReply,
    b: PoolMaintenance,
    action: ActionModel,
    h: TxHash,
)
    requires
        resumed(a, reply, b, action),
    ensures
        a.stage is ReaddingForQuote && reply is Done ==> action == ActionModel::UpdateNonces,
        a.stage is UpdatingNonces && reply is Done ==> action == ActionModel::UpdateLiquidity
            && b.stage == Stage::UpdatingLiquidity,
        a.stage is UpdatingLiquidity && reply is Done ==> (b.stage, action) == invalidation_next(a),
        a.stage is EvictingInvalidated ==> (reply matches MaintenanceReply::Evicted(hashes) ==> {
            &&& hashes@.contains(h) ==> !b.state.expiries().by_hash.contains_key(h)
            &&& (b.stage, action) == staleness_next(a)
        }),
        a.stage is RemovingExpired && reply is Removed ==> (b.stage, action) == pause_next(a),
        a.stage is EvictingPaused && reply is Done ==> (b.stage, action) == paused_next(a),
        a.stage is EvictingPausedInvalidated && reply is Done ==> (b.stage, action) == policy_next(
            a,
        ),
        a.stage is ReaddingForPolicy && reply is Done ==> (b.stage, action) == quote_next(a),
        a.stage is Repopulating && reply is Done ==> (b.stage, action) == expiry_next(a),
        a.stage matches Stage::Unpausing(next) ==> (reply is Done ==> (b.stage, action)
            == unpause_next(a, next as int)),
{
    match reply {
        MaintenanceReply::Evicted(hashes) => {
            if hashes@.contains(h) {
                lemma_untracked(a.state.expiries(), hashes@, h);
            }
        },
        _ => {},
    }
}

/// What a log entry says counts exactly if the contract that the event belongs to wrote it: of the
/// account keychain, revoked keys, changed limits, spends and burned witnesses.
pub proof fn law_keychain_logs(
    u: Updates,
    log: PoolLog,
    at: SystemAddresses,
    account: Address,
    key: Address,
    token: Address,
    witness: B256,
)
    ensures
        ({
            let v = with_log(u, log, at);
            let ours = log.address == at.account_keychain;
            &&& revoked(v.revoked_keys, account, key) <==> revoked(u.revoked_keys, account, key) || (
            ours && log.event == Some(PoolEvent::KeyRevoked { account, public_key: key }))
            &&& limit_updated(v.spending_limit_changes, account, key, token) <==> limit_updated(
                u.spending_limit_changes,
                account,
                key,
                token,
            ) || (ours && log.event == Some(
                PoolEvent::SpendingLimitUpdated { account, public_key: key, token },
            ))
            &&& limit_updated(v.spending_limit_spends, account, key, token) <==> limit_updated(
                u.spending_limit_spends,
                account,
                key,
                token,
            ) || (ours && log.event == Some(
                PoolEvent::AccessKeySpend { account, public_key: key, token },
            ))
            &&& (v.key_authorization_witness_burns.contains_key(account)
                && v.key_authorization_witness_burns[account].contains(witness)) <==> (
            u.key_authorization_witness_burns.contains_key(account)
                && u.key_authorization_witness_burns[account].contains(witness)) || (ours
                && log.event == Some(PoolEvent::KeyAuthorizationWitnessBurned { account, witness }))
        }),
{
    match log.event {
        Some(PoolEvent::KeyRevoked { account: a, public_key: k }) => {
            law_revoked_insert(u.revoked_keys, a, k, account, key);
        },
        Some(PoolEvent::SpendingLimitUpdated { account: a, public_key: k, token: t }) => {
            law_limit_update_insert(
                u.spending_limit_changes,
                a,
                k,
                Some(t),
                account,
                key,
                token,
            );
        },
        Some(PoolEvent::AccessKeySpend { account: a, public_key: k, token: t }) => {
            law_limit_update_insert(
                u.spending_limit_spends,
                a,
                k,
                Some(t),
                account,
                key,
                token,
            );
        },
        _ => {},
    }
}

/// The log entry is one of a TIP-20 token, and not of one of the system contracts.
pub open spec fn of_token(log: PoolLog, at: SystemAddresses) -> bool {
    &&& tip20_prefixed(log.address)
    &&& log.address != at.account_keychain
    &&& log.address != at.tip_fee_manager
    &&& log.address != at.tip403_registry
}

/// Of the fee manager, the last token of each validator and the users that chose one count; of the
/// registry of policies only what restricts an account; of a token its pauses and unpauses in order,
/// its changed policy and quote token, and the accounts that it debits.
pub proof fn law_other_logs(
    u: Updates,
    log: PoolLog,
    at: SystemAddresses,
    account: Address,
    token: Address,
)
    requires
        at.distinct(),
    ensures
        ({
            let v = with_log(u, log, at);
            let fees = log.address == at.tip_fee_manager;
            let registry = log.address == at.tip403_registry;
            &&& (fees && log.event == Some(
                PoolEvent::ValidatorTokenSet { validator: account, token },
            )) ==> v.validator_token_changes.contains_key(account)
                && v.validator_token_changes[account] == token
            &&& !(fees && (log.event matches Some(PoolEvent::ValidatorTokenSet { validator, .. })
                && validator == account)) ==> v.validator_token_changes.contains_key(account)
                == u.validator_token_changes.contains_key(account)
                && v.validator_token_changes[account] == u.validator_token_changes[account]
            &&& v.user_token_changes.contains(account) <==> u.user_token_changes.contains(account)
                || (fees && log.event == Some(PoolEvent::UserTokenSet { user: account }))
            &&& v.blacklist_additions == (if registry && (log.event matches Some(
                PoolEvent::BlacklistUpdated { restricted, .. },
            ) && restricted) {
                u.blacklist_additions.push(
                    (
                        log.event->0->BlacklistUpdated_policy_id,
                        log.event->0->BlacklistUpdated_account,
                    ),
                )
            } else {
                u.blacklist_additions
            })
            &&& v.whitelist_removals == (if registry && (log.event matches Some(
                PoolEvent::WhitelistUpdated { allowed, .. },
            ) && !allowed) {
                u.whitelist_removals.push(
                    (
                        log.event->0->WhitelistUpdated_policy_id,
                        log.event->0->WhitelistUpdated_account,
                    ),
                )
            } else {
                u.whitelist_removals
            })
            &&& v.pause_events == (if of_token(log, at) && log.event is Some
                && log.event->0 is PauseStateUpdate {
                u.pause_events.push((log.address, log.event->0->is_paused))
            } else {
                u.pause_events
            })
            &&& v.transfer_policy_updates.contains(token) <==> u.transfer_policy_updates.contains(
                token,
            ) || (of_token(log, at) && log.address == token && log.event == Some(
                PoolEvent::TransferPolicyUpdate,
            ))
            &&& v.quote_token_updates.contains(token) <==> u.quote_token_updates.contains(token) || (
            of_token(log, at) && log.address == token && log.event == Some(
                PoolEvent::QuoteTokenUpdate,
            ))
            &&& (v.fee_balance_changes.contains_key(token)
                && v.fee_balance_changes[token].contains(account)) <==> (
            u.fee_balance_changes.contains_key(token) && u.fee_balance_changes[token].contains(
                account,
            )) || (of_token(log, at) && log.address == token && log.event == Some(
                PoolEvent::Transfer { from: account },
            ))
            &&& v.expired_txs == u.expired_txs
        }),
{
    assert(at.all()[0] == at.tip403_registry && at.all()[1] == at.tip_fee_manager && at.all()[4]
        == at.account_keychain);
}

/// Log entries are taken in one after the other, each once.
pub proof fn law_logs_in_order(u: Updates, logs: Seq<PoolLog>, log: PoolLog, at: SystemAddresses)
    ensures
        with_logs(u, logs.push(log), at) == with_log(with_logs(u, logs, at), log, at),
        with_logs(u, Seq::empty(), at) == u,
{
    assert(logs.push(log).drop_last() =~= logs);
}

/// The pool has to be looked through exactly if there is a revoked key, a changed or used limit, a
/// burned witness, a chosen token, a restricted account or a debited one. What was put aside has to
/// be looked through exactly for the first four.
pub proof fn law_what_calls_for_a_scan(u: Updates)
    ensures
        ({
            let by_key = (exists|a: Address| #[trigger] u.revoked_keys.contains_key(a)) || (exists|
                a: Address,
            | #[trigger]
                u.spending_limit_changes.contains_key(a)) || (exists|a: Address| #[trigger]
                u.spending_limit_spends.contains_key(a)) || (exists|a: Address| #[trigger]
                u.key_authorization_witness_burns.contains_key(a));
            let otherwise = (exists|a: Address| #[trigger] u.validator_token_changes.contains_key(a))
                || (exists|a: Address| #[trigger] u.user_token_changes.contains(a))
                || u.blacklist_additions.len() > 0 || u.whitelist_removals.len() > 0 || (exists|
                a: Address,
            | #[trigger]
                u.fee_balance_changes.contains_key(a));
            &&& TempoPoolUpdates::touches_paused(u) <==> by_key
            &&& TempoPoolUpdates::invalidating(u) <==> by_key || otherwise
        }),
{
    if forall|a: Address| !#[trigger] u.revoked_keys.contains_key(a) {
        assert(u.revoked_keys =~= Map::empty());
    }
    if forall|a: Address| !#[trigger] u.spending_limit_changes.contains_key(a) {
        assert(u.spending_limit_changes =~= Map::empty());
    }
    if forall|a: Address| !#[trigger] u.spending_limit_spends.contains_key(a) {
        assert(u.spending_limit_spends =~= Map::empty());
    }
    if forall|a: Address| !#[trigger] u.key_authorization_witness_burns.contains_key(a) {
        assert(u.key_authorization_witness_burns =~= Map::empty());
    }
    if forall|a: Address| !#[trigger] u.validator_token_changes.contains_key(a) {
        assert(u.validator_token_changes =~= Map::empty());
    }
    if forall|a: Address| !#[trigger] u.user_token_changes.contains(a) {
        assert(u.user_token_changes =~= Set::empty());
    }
    if forall|a: Address| !#[trigger] u.fee_balance_changes.contains_key(a) {
        assert(u.fee_balance_changes =~= Map::empty());
    }
}

/// Without log entries nothing is changed: no list holds anything.
pub proof fn law_no_updates()
    ensures
        ({
            let u = no_updates();
            &&& u.expired_txs.len() == 0 && u.pause_events.len() == 0
            &&& u.blacklist_additions.len() == 0 && u.whitelist_removals.len() == 0
            &&& forall|a: Address| !#[trigger] u.revoked_keys.contains_key(a)
            &&& forall|a: Address| !#[trigger] u.spending_limit_changes.contains_key(a)
            &&& forall|a: Address| !#[trigger] u.spending_limit_spends.contains_key(a)
            &&& forall|a: Address| !#[trigger] u.key_authorization_witness_burns.contains_key(a)
            &&& forall|a: Address| !#[trigger] u.validator_token_changes.contains_key(a)
            &&& forall|a: Address| !#[trigger] u.user_token_changes.contains(a)
            &&& forall|a: Address| !#[trigger] u.transfer_policy_updates.contains(a)
            &&& forall|a: Address| !#[trigger] u.quote_token_updates.contains(a)
            &&& forall|a: Address| !#[trigger] u.fee_balance_changes.contains_key(a)
        }),
{
}

} // verus!
