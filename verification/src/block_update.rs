//! The steps of pool maintenance that follow a new block.
//!
//! The loop around them waits for blocks and new transactions, and adds to and removes from the
//! pools; what it adds and removes is decided here.
use crate::addresses::SystemAddresses;
use crate::keychain::{add_item, lists, with_item};
use crate::maintain::{
    buckets_exact, due, law_removed_are_not_due, without_all_tracked, without_due, TempoPoolState,
    EVICTION_BUFFER_SECS,
};
use crate::ordered::SortedMap;
use crate::pool_updates::{no_updates, with_logs, PoolLog, TempoPoolUpdates, Updates};
use crate::primitives::{Address, TxHash};
use crate::sets::{to_set, SortedSet};
use crate::transaction::ValidPoolTransaction;
use crate::validator::saturated;
use std::sync::Arc;
use vstd::prelude::*;

verus! {

/// Some transactions of the pool.
pub type PoolTransactions = Vec<Arc<ValidPoolTransaction>>;

/// The items that are marked.
pub open spec fn kept<T>(items: Seq<T>, marks: Seq<bool>) -> Seq<T>
    decreases items.len(),
{
    if items.len() == 0 {
        Seq::empty()
    } else if marks[items.len() - 1] {
        kept(items.drop_last(), marks).push(items.last())
    } else {
        kept(items.drop_last(), marks)
    }
}

/// Keeps the transactions that are still in the pool: those that are marked.
pub fn keep_pooled(hashes: &Vec<TxHash>, in_pool: &Vec<bool>) -> (r: Vec<TxHash>)
    requires
        hashes@.len() == in_pool@.len(),
    ensures
        r@ == kept(hashes@, in_pool@),
{
    let mut r: Vec<TxHash> = Vec::new();
    let mut i: usize = 0;
    assert(hashes@.take(0) =~= Seq::empty());
    while i < hashes.len()
        invariant
            hashes@.len() == in_pool@.len(),
            i <= hashes@.len(),
            r@ == kept(hashes@.take(i as int), in_pool@),
        decreases hashes@.len() - i,
    {
        proof {
            assert(hashes@.take(i + 1).drop_last() =~= hashes@.take(i as int));
            assert(hashes@.take(i + 1).last() == hashes@[i as int]);
        }
        if in_pool[i] {
            r.push(hashes[i]);
        }
        i = i + 1;
    }
    assert(hashes@.take(i as int) =~= hashes@);
    r
}

/// The timestamp up to which transactions are evicted at a tip.
pub open spec fn max_expiry(tip_timestamp: u64) -> u64 {
    saturated(tip_timestamp, EVICTION_BUFFER_SECS)
}

impl TempoPoolState {
    /// Starts the maintenance for a new block: collects what its log entries say, stops tracking
    /// the transactions it includes, and finds those that expire soon after it.
    ///
    /// Some of those that expire may have left the pool in the meantime.
    pub fn on_block(
        &mut self,
        logs: &Vec<PoolLog>,
        at: &SystemAddresses,
        mined: &[TxHash],
        tip_timestamp: u64,
    ) -> (r: TempoPoolUpdates)
        requires
            old(self).wf(),
        ensures
            final(self).wf(),
            final(self).pending_staleness == old(self).pending_staleness,
            final(self).expiries() == without_due(
                without_all_tracked(old(self).expiries(), mined@),
                max_expiry(tip_timestamp),
            ),
            r.wf(),
            r@ == (Updates {
                expired_txs: r@.expired_txs,
                ..with_logs(no_updates(), logs@, *at)
            }),
            forall|h: TxHash| #[trigger]
                r@.expired_txs.contains(h) <==> due(
                    without_all_tracked(old(self).expiries(), mined@),
                    max_expiry(tip_timestamp),
                    h,
                ),
            buckets_exact(old(self).expiries()) ==> {
                &&& buckets_exact(final(self).expiries())
                &&& forall|h: TxHash| #[trigger]
                    r@.expired_txs.contains(h) <==> old(self).expiries().by_hash.contains_key(h)
                        && old(self).expiries().by_hash[h] <= max_expiry(tip_timestamp)
                        && !mined@.contains(h)
            },
    {
        let mut updates = TempoPoolUpdates::from_chain(logs, at);
        self.untrack_many(mined);
        let until: u64 = tip_timestamp.saturating_add(EVICTION_BUFFER_SECS);
        updates.expired_txs = self.drain_expired(until);
        assert(updates@ =~= (Updates {
            expired_txs: updates@.expired_txs,
            ..with_logs(no_updates(), logs@, *at)
        }));
        proof {
            let e = old(self).expiries();
            if buckets_exact(e) {
                assert forall|h: TxHash| #[trigger] updates@.expired_txs.contains(
                    h,
                ) <==> e.by_hash.contains_key(h) && e.by_hash[h] <= max_expiry(tip_timestamp)
                    && !mined@.contains(h) by {
                    law_removed_are_not_due(e, mined@, max_expiry(tip_timestamp), h);
                }
            }
        }
        updates
    }

    /// Finds the stale ones among the pending transactions and stops tracking them, if it is time
    /// to look for them.
    pub fn evict_stale(&mut self, pending: &Vec<TxHash>, now: u64) -> (r: Vec<TxHash>)
        requires
            old(self).wf(),
        ensures
            final(self).wf(),
            if old(self).pending_staleness.is_due(now) {
                &&& forall|h: TxHash| #[trigger]
                    r@.contains(h) <==> pending@.contains(h) && old(
                        self,
                    ).pending_staleness.seen_pending().contains(h)
                &&& r@.no_duplicates()
                &&& final(self).expiries() == without_all_tracked(old(self).expiries(), r@)
                &&& final(self).pending_staleness.seen_pending() == pending@.to_set().difference(
                    old(self).pending_staleness.seen_pending(),
                )
                &&& final(self).pending_staleness.last_snapshot_time == Some(now)
                &&& final(self).pending_staleness.interval_secs
                    == old(self).pending_staleness.interval_secs
            } else {
                &&& r@.len() == 0
                &&& *final(self) == *old(self)
            },
            buckets_exact(old(self).expiries()) ==> buckets_exact(final(self).expiries()),
    {
        if !self.pending_staleness.should_check(now) {
            return Vec::new();
        }
        let current = to_set(pending);
        let ghost listed = current@;
        let stale = self.pending_staleness.check_and_update(current, now);
        assert forall|h: TxHash| #[trigger] stale@.contains(h) <==> pending@.contains(h) && old(
            self,
        ).pending_staleness.seen_pending().contains(h) by {
            assert(listed.contains_key(h) == pending@.to_set().contains(h));
        }
        assert(self.expiries() == old(self).expiries());
        self.untrack_many(stale.as_slice());
        stale
    }
}

/// The tokens that were paused, or those that were unpaused, in order.
pub open spec fn tokens_with(events: Seq<(Address, bool)>, paused: bool) -> Seq<Address>
    decreases events.len(),
{
    if events.len() == 0 {
        Seq::empty()
    } else if events.last().1 == paused {
        tokens_with(events.drop_last(), paused).push(events.last().0)
    } else {
        tokens_with(events.drop_last(), paused)
    }
}

/// Returns the tokens that were paused, or those that were unpaused, in order.
pub fn changed_tokens(events: &Vec<(Address, bool)>, paused: bool) -> (r: Vec<Address>)
    ensures
        r@ == tokens_with(events@, paused),
{
    let mut r: Vec<Address> = Vec::new();
    let mut i: usize = 0;
    assert(events@.take(0) =~= Seq::empty());
    while i < events.len()
        invariant
            i <= events@.len(),
            r@ == tokens_with(events@.take(i as int), paused),
        decreases events@.len() - i,
    {
        proof {
            assert(events@.take(i + 1).drop_last() =~= events@.take(i as int));
        }
        if events[i].1 == paused {
            r.push(events[i].0);
        }
        i = i + 1;
    }
    assert(events@.take(i as int) =~= events@);
    r
}

/// The transactions that name each token as their fee token, in order. One that names none is not
/// among them, whatever token its fee is taken in.
pub open spec fn by_fee_token(txs: Seq<Arc<ValidPoolTransaction>>) -> Map<Address, Seq<TxHash>>
    decreases txs.len(),
{
    if txs.len() == 0 {
        Map::empty()
    } else {
        let before = by_fee_token(txs.drop_last());
        match txs.last().transaction.inner.fee_token {
            Some(token) => with_item(before, token, txs.last().spec_hash()),
            None => before,
        }
    }
}

fn group_by_fee_token(txs: &PoolTransactions) -> (r: SortedMap<Address, Vec<TxHash>>)
    ensures
        r.wf(),
        lists(r@) == by_fee_token(txs@),
{
    let mut r: SortedMap<Address, Vec<TxHash>> = SortedMap::new();
    let mut i: usize = 0;
    assert(txs@.take(0) =~= Seq::empty());
    assert(lists(r@) =~= Map::empty());
    while i < txs.len()
        invariant
            r.wf(),
            i <= txs@.len(),
            lists(r@) == by_fee_token(txs@.take(i as int)),
        decreases txs@.len() - i,
    {
        proof {
            assert(txs@.take(i + 1).drop_last() =~= txs@.take(i as int));
            assert(txs@.take(i + 1).last() == txs@[i as int]);
        }
        match txs[i].transaction.inner.fee_token {
            Some(token) => {
                add_item(&mut r, token, *txs[i].hash());
            },
            None => {},
        }
        i = i + 1;
    }
    assert(txs@.take(i as int) =~= txs@);
    r
}

/// Which transactions leave the pool for which paused token, in the order in which the tokens were
/// paused. A token that was paused twice counts once.
pub open spec fn pause_plan(
    tokens: Seq<Address>,
    by_token: Map<Address, Seq<TxHash>>,
) -> Seq<(Address, Seq<TxHash>)>
    decreases tokens.len(),
{
    if tokens.len() == 0 {
        Seq::empty()
    } else if by_token.contains_key(tokens[0]) {
        seq![(tokens[0], by_token[tokens[0]])] + pause_plan(
            tokens.drop_first(),
            by_token.remove(tokens[0]),
        )
    } else {
        pause_plan(tokens.drop_first(), by_token)
    }
}

/// The plan that vectors hold.
pub open spec fn plan_view(plan: Seq<(Address, Vec<TxHash>)>) -> Seq<(Address, Seq<TxHash>)> {
    plan.map_values(|p: (Address, Vec<TxHash>)| (p.0, p.1@))
}

/// Decides which transactions leave the pool for which paused token.
///
/// The transactions are grouped by fee token in one pass, however many tokens were paused.
pub fn plan_pauses(pause_events: &Vec<(Address, bool)>, txs: &PoolTransactions) -> (r: Vec<
    (Address, Vec<TxHash>),
>)
    ensures
        plan_view(r@) == pause_plan(tokens_with(pause_events@, true), by_fee_token(txs@)),
{
    let tokens = changed_tokens(pause_events, true);
    let mut plan: Vec<(Address, Vec<TxHash>)> = Vec::new();
    if tokens.len() == 0 {
        assert(plan_view(plan@) =~= Seq::empty());
        return plan;
    }
    let mut groups = group_by_fee_token(txs);
    let ghost whole = pause_plan(tokens@, lists(groups@));
    let mut i: usize = 0;
    assert(tokens@.skip(0) =~= tokens@);
    assert(plan_view(plan@) + whole =~= whole);
    while i < tokens.len()
        invariant
            groups.wf(),
            i <= tokens@.len(),
            plan_view(plan@) + pause_plan(tokens@.skip(i as int), lists(groups@)) == whole,
        decreases tokens@.len() - i,
    {
        let ghost before = lists(groups@);
        let ghost rest = tokens@.skip(i as int);
        let ghost planned = plan_view(plan@);
        proof {
            assert(rest[0] == tokens@[i as int]);
            assert(rest.drop_first() =~= tokens@.skip(i + 1));
        }
        match groups.remove(&tokens[i]) {
            Some(hashes) => {
                assert(lists(groups@) =~= before.remove(tokens@[i as int]));
                assert(before[tokens@[i as int]] == hashes@);
                plan.push((tokens[i], hashes));
                proof {
                    assert(plan_view(plan@) =~= planned.push(
                        (tokens@[i as int], before[tokens@[i as int]]),
                    ));
                    assert(plan_view(plan@) + pause_plan(
                        tokens@.skip(i + 1),
                        lists(groups@),
                    ) =~= planned + pause_plan(rest, before));
                }
            },
            None => {
                assert(lists(groups@) =~= before);
            },
        }
        i = i + 1;
    }
    assert(tokens@.skip(i as int) =~= Seq::empty());
    assert(plan_view(plan@) =~= whole);
    plan
}

/// The transactions whose fee token is one of those that changed.
pub open spec fn revalidated(
    txs: Seq<Arc<ValidPoolTransaction>>,
    updated: Set<Address>,
) -> Seq<TxHash>
    decreases txs.len(),
{
    if txs.len() == 0 {
        Seq::empty()
    } else {
        let before = revalidated(txs.drop_last(), updated);
        match txs.last().transaction.resolved_fee_token {
            Some(token) => if updated.contains(token) {
                before.push(txs.last().spec_hash())
            } else {
                before
            },
            None => before,
        }
    }
}

/// Finds the transactions that have to be validated again because something about their fee token
/// changed: its transfer policy or its quote token.
pub fn to_revalidate(txs: &PoolTransactions, updated: &SortedSet<Address>) -> (r: Vec<TxHash>)
    requires
        updated.wf(),
    ensures
        r@ == revalidated(txs@, updated@.dom()),
{
    let mut r: Vec<TxHash> = Vec::new();
    let mut i: usize = 0;
    assert(txs@.take(0) =~= Seq::empty());
    while i < txs.len()
        invariant
            updated.wf(),
            i <= txs@.len(),
            r@ == revalidated(txs@.take(i as int), updated@.dom()),
        decreases txs@.len() - i,
    {
        proof {
            assert(txs@.take(i + 1).drop_last() =~= txs@.take(i as int));
            assert(txs@.take(i + 1).last() == txs@[i as int]);
        }
        match txs[i].transaction.resolved_fee_token() {
            Some(token) => {
                if updated.contains_key(&token) {
                    r.push(*txs[i].hash());
                }
            },
            None => {},
        }
        i = i + 1;
    }
    assert(txs@.take(i as int) =~= txs@);
    r
}

/// A plan sends a transaction away for a token.
pub open spec fn sends_away(
    plan: Seq<(Address, Seq<TxHash>)>,
    token: Address,
    hash: TxHash,
) -> bool {
    exists|i: int| 0 <= i < plan.len() && (#[trigger] plan[i]).0 == token && plan[i].1.contains(hash)
}

/// Every transaction that names a paused token as its fee token leaves the pool for it.
pub proof fn law_paused_leave(
    tokens: Seq<Address>,
    by_token: Map<Address, Seq<TxHash>>,
    token: Address,
    hash: TxHash,
)
    requires
        tokens.contains(token),
        by_token.contains_key(token),
        by_token[token].contains(hash),
    ensures
        sends_away(pause_plan(tokens, by_token), token, hash),
    decreases tokens.len(),
{
    let plan = pause_plan(tokens, by_token);
    let k = choose|k: int| 0 <= k < tokens.len() && tokens[k] == token;
    let rest = tokens.drop_first();
    if tokens[0] == token {
        assert(plan[0] == (token, by_token[token]));
    } else {
        assert(rest[k - 1] == token);
        if by_token.contains_key(tokens[0]) {
            let later = pause_plan(rest, by_token.remove(tokens[0]));
            law_paused_leave(rest, by_token.remove(tokens[0]), token, hash);
            let i = choose|i: int|
                0 <= i < later.len() && (#[trigger] later[i]).0 == token && later[i].1.contains(
                    hash,
                );
            assert(plan[i + 1] == later[i]);
        } else {
            law_paused_leave(rest, by_token, token, hash);
        }
    }
}

/// Only transactions that name a paused token as their fee token leave the pool for it.
pub proof fn law_only_paused_leave(
    tokens: Seq<Address>,
    by_token: Map<Address, Seq<TxHash>>,
    token: Address,
    hash: TxHash,
)
    requires
        sends_away(pause_plan(tokens, by_token), token, hash),
    ensures
        tokens.contains(token),
        by_token.contains_key(token),
        by_token[token].contains(hash),
    decreases tokens.len(),
{
    let plan = pause_plan(tokens, by_token);
    let i = choose|i: int|
        0 <= i < plan.len() && (#[trigger] plan[i]).0 == token && plan[i].1.contains(hash);
    let rest = tokens.drop_first();
    if by_token.contains_key(tokens[0]) && i == 0 {
        assert(plan[0] == (tokens[0], by_token[tokens[0]]));
    } else {
        let map = if by_token.contains_key(tokens[0]) {
            by_token.remove(tokens[0])
        } else {
            by_token
        };
        let later = pause_plan(rest, map);
        let j = if by_token.contains_key(tokens[0]) {
            i - 1
        } else {
            i
        };
        assert(later[j] == plan[i]);
        law_only_paused_leave(rest, map, token, hash);
        let k = choose|k: int| 0 <= k < rest.len() && rest[k] == token;
        assert(tokens[k + 1] == token);
    }
}

} // verus!
