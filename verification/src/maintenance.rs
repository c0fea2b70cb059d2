//! The loop that keeps the pool up to date, as a machine: it is told what happened, and answers
//! with what is to be done next.
//!
//! Whoever drives it listens for new transactions and blocks, does what the machine asks of the
//! pool, the paused transactions and the liquidity cache, and hands back what came of it.
use crate::addresses::SystemAddresses;
use crate::block_update::{
    by_fee_token, changed_tokens, keep_pooled, kept, max_expiry, pause_plan, plan_pauses, plan_view,
    revalidated, to_revalidate, tokens_with, PoolTransactions,
};
use crate::maintain::{
    buckets_exact, due, expiry_of, keeps_expiry, law_track_keeps_exact, spec_valid_before,
    valid_before, with_tracked, without_all_tracked, without_due, Expiries, TempoPoolState,
};
use crate::pending::share;
use crate::pool_updates::{no_updates, with_logs, PoolLog, TempoPoolUpdates, Updates};
use crate::primitives::{Address, TxHash};
use crate::sets::no_members;
use crate::transaction::{TempoPooledTransaction, ValidPoolTransaction};
use std::sync::Arc;
use vstd::prelude::*;

verus! {

/// A transaction whose fee token is paused.
#[derive(Debug)]
pub struct PausedEntry {
    /// The transaction.
    pub tx: Arc<ValidPoolTransaction>,
    /// When it expires, if it does.
    pub valid_before: Option<u64>,
}

/// What is to be done next.
#[derive(Debug)]
pub enum MaintenanceAction {
    /// Fill the liquidity cache anew from the chain.
    RepopulateLiquidity,
    /// Tell which of the transactions are in the pool.
    CheckPooled(Vec<TxHash>),
    /// Remove the transactions from the pool.
    Remove(Vec<TxHash>),
    /// List all transactions of the pool, the pending ones first.
    ListTransactions,
    /// Put aside transactions whose fee token was paused.
    Pause {
        /// The token.
        token: Address,
        /// The transactions.
        entries: Vec<PausedEntry>,
    },
    /// Add all transactions again that were put aside for a token.
    Unpause(Address),
    /// Drop those transactions put aside that have expired or have waited too long.
    EvictPaused {
        /// The timestamp of the tip.
        tip_timestamp: u64,
    },
    /// Drop those transactions put aside that the updates of the block make invalid.
    EvictPausedInvalidated,
    /// Add the transactions again, as if they were new.
    Readd(PoolTransactions),
    /// Hand the changed state to the pool for two-dimensional nonces.
    UpdateNonces,
    /// Bring the liquidity cache up to date.
    UpdateLiquidity,
    /// Remove the transactions that the updates of the block make invalid.
    EvictInvalidated,
    /// List the pending transactions.
    ListPending,
    /// Nothing: the block is done.
    Finished,
    /// Nothing: this is not what the machine was waiting for.
    Unexpected,
}

/// What came of it.
#[derive(Debug)]
pub enum MaintenanceReply {
    /// It was done.
    Done,
    /// Which of the transactions are in the pool.
    Pooled(Vec<bool>),
    /// The transactions of the pool.
    Transactions(PoolTransactions),
    /// The transactions that were removed.
    Removed(PoolTransactions),
    /// The transactions that were removed as invalid.
    Evicted(Vec<TxHash>),
    /// The pending transactions.
    Pending(Vec<TxHash>),
}

/// What the machine is waiting for.
#[derive(Debug, Clone, Copy, PartialEq, Eq, Structural)]
pub enum Stage {
    /// A new block.
    Idle,
    /// The liquidity cache, after a reorganization.
    Repopulating,
    /// Which of the expired transactions are in the pool.
    CheckingExpired,
    /// The removal of expired transactions.
    RemovingExpired,
    /// The transactions, as tokens were paused.
    ListingForPause,
    /// The removal of transactions with a paused token.
    RemovingPaused(Address),
    /// The putting aside of these transactions.
    Pausing,
    /// The adding of transactions of an unpaused token; the next event to look at.
    Unpausing(usize),
    /// The dropping of expired transactions put aside.
    EvictingPaused,
    /// The dropping of invalid transactions put aside.
    EvictingPausedInvalidated,
    /// The transactions, as transfer policies changed.
    ListingForPolicy,
    /// The removal of transactions whose token has another transfer policy.
    RemovingForPolicy,
    /// The adding of these transactions.
    ReaddingForPolicy,
    /// The transactions, as quote tokens changed.
    ListingForQuote,
    /// The removal of transactions whose token has another quote token.
    RemovingForQuote,
    /// The adding of these transactions.
    ReaddingForQuote,
    /// The update of the nonces.
    UpdatingNonces,
    /// The update of the liquidity cache.
    UpdatingLiquidity,
    /// The removal of invalid transactions.
    EvictingInvalidated,
    /// The pending transactions, to find those that are stale.
    ListingPending,
    /// The removal of stale transactions.
    RemovingStale,
}

/// An action, over sequences.
pub enum ActionModel {
    /// Fill the liquidity cache anew.
    RepopulateLiquidity,
    /// Tell which are in the pool.
    CheckPooled(Seq<TxHash>),
    /// Remove from the pool.
    Remove(Seq<TxHash>),
    /// List the pool.
    ListTransactions,
    /// Put aside.
    Pause(Address, Seq<PausedEntry>),
    /// Add what was put aside.
    Unpause(Address),
    /// Drop what has expired.
    EvictPaused(u64),
    /// Drop what is invalid.
    EvictPausedInvalidated,
    /// Add again.
    Readd(Seq<Arc<ValidPoolTransaction>>),
    /// Update the nonces.
    UpdateNonces,
    /// Update the liquidity cache.
    UpdateLiquidity,
    /// Remove what is invalid.
    EvictInvalidated,
    /// List what is pending.
    ListPending,
    /// The block is done.
    Finished,
    /// Not what was waited for.
    Unexpected,
}

impl View for MaintenanceAction {
    type V = ActionModel;

    open spec fn view(&self) -> ActionModel {
        match self {
            MaintenanceAction::RepopulateLiquidity => ActionModel::RepopulateLiquidity,
            MaintenanceAction::CheckPooled(hashes) => ActionModel::CheckPooled(hashes@),
            MaintenanceAction::Remove(hashes) => ActionModel::Remove(hashes@),
            MaintenanceAction::ListTransactions => ActionModel::ListTransactions,
            MaintenanceAction::Pause { token, entries } => ActionModel::Pause(*token, entries@),
            MaintenanceAction::Unpause(token) => ActionModel::Unpause(*token),
            MaintenanceAction::EvictPaused { tip_timestamp } => ActionModel::EvictPaused(
                *tip_timestamp,
            ),
            MaintenanceAction::EvictPausedInvalidated => ActionModel::EvictPausedInvalidated,
            MaintenanceAction::Readd(txs) => ActionModel::Readd(txs@),
            MaintenanceAction::UpdateNonces => ActionModel::UpdateNonces,
            MaintenanceAction::UpdateLiquidity => ActionModel::UpdateLiquidity,
            MaintenanceAction::EvictInvalidated => ActionModel::EvictInvalidated,
            MaintenanceAction::ListPending => ActionModel::ListPending,
            MaintenanceAction::Finished => ActionModel::Finished,
            MaintenanceAction::Unexpected => ActionModel::Unexpected,
        }
    }
}

/// The machine.
#[derive(Debug)]
pub struct PoolMaintenance {
    /// What is tracked from block to block.
    pub state: TempoPoolState,
    /// What the current block changed.
    pub updates: TempoPoolUpdates,
    /// The transactions still to be put aside, token by token.
    pub plan: Vec<(Address, Vec<TxHash>)>,
    /// The timestamp of the tip.
    pub tip_timestamp: u64,
    /// What the machine is waiting for.
    pub stage: Stage,
}

/// The hashes of some transactions.
pub open spec fn hashes_of(txs: Seq<Arc<ValidPoolTransaction>>) -> Seq<TxHash> {
    txs.map_values(|tx: Arc<ValidPoolTransaction>| tx.spec_hash())
}

/// The entries under which some transactions are put aside.
pub open spec fn paused_entries(txs: Seq<Arc<ValidPoolTransaction>>) -> Seq<PausedEntry> {
    txs.map_values(
        |tx: Arc<ValidPoolTransaction>|
            PausedEntry { tx, valid_before: spec_valid_before(tx.transaction) },
    )
}

/// The tracked transactions after some were added.
pub open spec fn with_all_tracked(e: Expiries, txs: Seq<Arc<ValidPoolTransaction>>) -> Expiries
    decreases txs.len(),
{
    if txs.len() == 0 {
        e
    } else {
        with_tracked(with_all_tracked(e, txs.drop_last()), txs.last().transaction)
    }
}

/// Transactions of the same hash that expire do so at the same time.
pub open spec fn expiries_agree(txs: Seq<Arc<ValidPoolTransaction>>) -> bool {
    forall|i: int, j: int|
        #![trigger txs[i], txs[j]]
        0 <= i < txs.len() && 0 <= j < txs.len() && txs[i].spec_hash() == txs[j].spec_hash()
            && expiry_of(txs[i].transaction) is Some && expiry_of(txs[j].transaction) is Some
            ==> expiry_of(txs[i].transaction) == expiry_of(txs[j].transaction)
}

/// The hash of a transaction of the list.
spec fn hash_at(txs: Seq<Arc<ValidPoolTransaction>>, i: int) -> TxHash {
    txs[i].spec_hash()
}

/// When a transaction of the list expires.
spec fn expiry_at(txs: Seq<Arc<ValidPoolTransaction>>, i: int) -> Option<u64> {
    expiry_of(txs[i].transaction)
}

/// Tracking the transactions of a pool from nothing leaves each in the bucket of its expiry and in
/// no other, and tracks exactly those that expire.
pub proof fn law_tracking_a_pool_is_exact(txs: Seq<Arc<ValidPoolTransaction>>)
    requires
        expiries_agree(txs),
    ensures
        ({
            let e = with_all_tracked(
                (Expiries { buckets: Map::empty(), by_hash: Map::empty() }),
                txs,
            );
            &&& buckets_exact(e)
            &&& forall|i: int|
                0 <= i < txs.len() && expiry_of((#[trigger] txs[i]).transaction) is Some
                    ==> e.by_hash.contains_key(txs[i].spec_hash())
                    && Some(e.by_hash[txs[i].spec_hash()]) == expiry_of(txs[i].transaction)
            &&& forall|h: TxHash| #[trigger]
                e.by_hash.contains_key(h) ==> exists|i: int|
                    0 <= i < txs.len() && (#[trigger] txs[i]).spec_hash() == h && expiry_of(
                        txs[i].transaction,
                    ) == Some(e.by_hash[h])
        }),
    decreases txs.len(),
{
    let none = Expiries { buckets: Map::empty(), by_hash: Map::empty() };
    if txs.len() > 0 {
        let front = txs.drop_last();
        let n = txs.len() - 1;
        let before = with_all_tracked(none, front);
        let e = with_all_tracked(none, txs);
        assert(expiries_agree(front)) by {
            assert forall|i: int, j: int|
                #![trigger front[i], front[j]]
                0 <= i < front.len() && 0 <= j < front.len() && front[i].spec_hash()
                    == front[j].spec_hash() && expiry_of(front[i].transaction) is Some && expiry_of(
                    front[j].transaction,
                ) is Some implies expiry_of(front[i].transaction) == expiry_of(
                front[j].transaction,
            ) by {
                assert(txs[i] == front[i] && txs[j] == front[j]);
            }
        }
        law_tracking_a_pool_is_exact(front);
        let hash = hash_at(txs, n);
        match expiry_at(txs, n) {
            Some(expiry) => {
                if before.by_hash.contains_key(hash) {
                    let i = choose|i: int|
                        0 <= i < front.len() && (#[trigger] front[i]).spec_hash() == hash
                            && expiry_of(front[i].transaction) == Some(before.by_hash[hash]);
                    assert(txs[i] == front[i] && txs[n].spec_hash() == hash);
                }
                law_track_keeps_exact(before, hash, expiry);
            },
            None => {},
        }
        assert forall|i: int|
            0 <= i < txs.len() && expiry_of((#[trigger] txs[i]).transaction) is Some implies
            e.by_hash.contains_key(txs[i].spec_hash()) && Some(e.by_hash[txs[i].spec_hash()])
            == expiry_of(txs[i].transaction) by {
            if i < n {
                assert(front[i] == txs[i]);
                assert(txs[n].spec_hash() == hash);
            }
        }
        assert forall|h: TxHash| #[trigger] e.by_hash.contains_key(h) implies exists|i: int|
            0 <= i < txs.len() && (#[trigger] txs[i]).spec_hash() == h && expiry_of(
                txs[i].transaction,
            ) == Some(e.by_hash[h]) by {
            if h == hash && expiry_of(txs[n].transaction) is Some {
                assert(txs[n].spec_hash() == h);
            } else {
                let i = choose|i: int|
                    0 <= i < front.len() && (#[trigger] front[i]).spec_hash() == h && expiry_of(
                        front[i].transaction,
                    ) == Some(before.by_hash[h]);
                assert(txs[i].spec_hash() == h);
            }
        }
    }
}

/// What comes when the invalid transactions are gone: the search for stale ones, if it is due.
pub open spec fn staleness_next(m: PoolMaintenance) -> (Stage, ActionModel) {
    if m.state.pending_staleness.is_due(m.tip_timestamp) {
        (Stage::ListingPending, ActionModel::ListPending)
    } else {
        (Stage::Idle, ActionModel::Finished)
    }
}

/// What comes when the liquidity cache is up to date: the removal of invalid transactions, if the
/// block makes any invalid.
pub open spec fn invalidation_next(m: PoolMaintenance) -> (Stage, ActionModel) {
    if TempoPoolUpdates::invalidating(m.updates@) {
        (Stage::EvictingInvalidated, ActionModel::EvictInvalidated)
    } else {
        staleness_next(m)
    }
}

/// What comes when the transfer policies are dealt with.
pub open spec fn quote_next(m: PoolMaintenance) -> (Stage, ActionModel) {
    if m.updates@.quote_token_updates != Set::<Address>::empty() {
        (Stage::ListingForQuote, ActionModel::ListTransactions)
    } else {
        (Stage::UpdatingNonces, ActionModel::UpdateNonces)
    }
}

/// What comes when the transactions put aside are dealt with.
pub open spec fn policy_next(m: PoolMaintenance) -> (Stage, ActionModel) {
    if m.updates@.transfer_policy_updates != Set::<Address>::empty() {
        (Stage::ListingForPolicy, ActionModel::ListTransactions)
    } else {
        quote_next(m)
    }
}

/// What comes when the expired ones of the transactions put aside are gone.
pub open spec fn paused_next(m: PoolMaintenance) -> (Stage, ActionModel) {
    if TempoPoolUpdates::touches_paused(m.updates@) {
        (Stage::EvictingPausedInvalidated, ActionModel::EvictPausedInvalidated)
    } else {
        policy_next(m)
    }
}

/// What comes of the pause events from the given one on: the next token that was unpaused.
pub open spec fn unpause_next(m: PoolMaintenance, from: int) -> (Stage, ActionModel)
    decreases m.updates@.pause_events.len() - from,
{
    if from < 0 || from >= m.updates@.pause_events.len() {
        (Stage::EvictingPaused, ActionModel::EvictPaused(m.tip_timestamp))
    } else if !m.updates@.pause_events[from].1 {
        (
            Stage::Unpausing((from + 1) as usize),
            ActionModel::Unpause(m.updates@.pause_events[from].0),
        )
    } else {
        unpause_next(m, from + 1)
    }
}

/// What comes when the expired transactions are gone: the pool is listed only if tokens were
/// paused.
pub open spec fn pause_next(m: PoolMaintenance) -> (Stage, ActionModel) {
    if tokens_with(m.updates@.pause_events, true).len() > 0 {
        (Stage::ListingForPause, ActionModel::ListTransactions)
    } else {
        unpause_next(m, 0)
    }
}

/// What comes first of a block, apart from a reorganization.
pub open spec fn expiry_next(m: PoolMaintenance) -> (Stage, ActionModel) {
    if m.updates@.expired_txs.len() > 0 {
        (Stage::CheckingExpired, ActionModel::CheckPooled(m.updates@.expired_txs))
    } else {
        pause_next(m)
    }
}

/// Nothing but the stage changed.
pub open spec fn same_but_stage(a: PoolMaintenance, b: PoolMaintenance) -> bool {
    &&& b.state == a.state
    &&& b.updates == a.updates
    &&& b.plan == a.plan
    &&& b.tip_timestamp == a.tip_timestamp
}

/// Only the tracked transactions and the stage changed.
pub open spec fn same_but_expiries(a: PoolMaintenance, b: PoolMaintenance, e: Expiries) -> bool {
    &&& b.state.wf()
    &&& b.state.expiries() == e
    &&& b.state.pending_staleness == a.state.pending_staleness
    &&& b.updates == a.updates
    &&& b.plan == a.plan
    &&& b.tip_timestamp == a.tip_timestamp
}

/// How the machine goes on after a reply.
pub open spec fn resumed(
    a: PoolMaintenance,
    reply: MaintenanceReply,
    b: PoolMaintenance,
    action: ActionModel,
) -> bool {
    match (a.stage, reply) {
        (Stage::Repopulating, MaintenanceReply::Done) => {
            &&& same_but_stage(a, b)
            &&& (b.stage, action) == expiry_next(a)
        },
        (Stage::CheckingExpired, MaintenanceReply::Pooled(marks)) => if marks@.len()
            == a.updates@.expired_txs.len() {
            let left = kept(a.updates@.expired_txs, marks@);
            &&& b.state == a.state
            &&& b.plan == a.plan
            &&& b.tip_timestamp == a.tip_timestamp
            &&& b.updates.wf()
            &&& b.updates@ == (Updates { expired_txs: left, ..a.updates@ })
            &&& (b.stage, action) == (if left.len() > 0 {
                (Stage::RemovingExpired, ActionModel::Remove(left))
            } else {
                pause_next(b)
            })
        } else {
            b == a && action == ActionModel::Unexpected
        },
        (Stage::RemovingExpired, MaintenanceReply::Removed(_)) => {
            &&& same_but_stage(a, b)
            &&& (b.stage, action) == pause_next(a)
        },
        (Stage::ListingForPause, MaintenanceReply::Transactions(txs)) => {
            &&& b.state == a.state
            &&& b.updates == a.updates
            &&& b.tip_timestamp == a.tip_timestamp
            &&& exists|plan: Seq<(Address, Vec<TxHash>)>|
                #![trigger plan_view(plan)]
                {
                    &&& plan_view(plan) == pause_plan(
                        tokens_with(a.updates@.pause_events, true),
                        by_fee_token(txs@),
                    )
                    &&& planned(a, plan, b, action)
                }
        },
        (Stage::RemovingPaused(token), MaintenanceReply::Removed(txs)) => {
            let e = without_all_tracked(a.state.expiries(), hashes_of(txs@));
            if txs@.len() > 0 {
                &&& same_but_expiries(a, b, e)
                &&& b.stage == Stage::Pausing
                &&& action == ActionModel::Pause(token, paused_entries(txs@))
            } else {
                &&& b.state == a.state
                &&& b.updates == a.updates
                &&& b.tip_timestamp == a.tip_timestamp
                &&& planned(a, a.plan@, b, action)
            }
        },
        (Stage::Pausing, MaintenanceReply::Done) => {
            &&& b.state == a.state
            &&& b.updates == a.updates
            &&& b.tip_timestamp == a.tip_timestamp
            &&& planned(a, a.plan@, b, action)
        },
        (Stage::Unpausing(next), MaintenanceReply::Done) => {
            &&& same_but_stage(a, b)
            &&& (b.stage, action) == unpause_next(a, next as int)
        },
        (Stage::EvictingPaused, MaintenanceReply::Done) => {
            &&& same_but_stage(a, b)
            &&& (b.stage, action) == paused_next(a)
        },
        (Stage::EvictingPausedInvalidated, MaintenanceReply::Done) => {
            &&& same_but_stage(a, b)
            &&& (b.stage, action) == policy_next(a)
        },
        (Stage::ListingForPolicy, MaintenanceReply::Transactions(txs)) => {
            let hashes = revalidated(txs@, a.updates@.transfer_policy_updates);
            &&& same_but_stage(a, b)
            &&& (b.stage, action) == (if hashes.len() > 0 {
                (Stage::RemovingForPolicy, ActionModel::Remove(hashes))
            } else {
                quote_next(a)
            })
        },
        (Stage::RemovingForPolicy, MaintenanceReply::Removed(txs)) => {
            &&& same_but_expiries(
                a,
                b,
                without_all_tracked(a.state.expiries(), hashes_of(txs@)),
            )
            &&& b.stage == Stage::ReaddingForPolicy
            &&& action == ActionModel::Readd(txs@)
        },
        (Stage::ReaddingForPolicy, MaintenanceReply::Done) => {
            &&& same_but_stage(a, b)
            &&& (b.stage, action) == quote_next(a)
        },
        (Stage::ListingForQuote, MaintenanceReply::Transactions(txs)) => {
            let hashes = revalidated(txs@, a.updates@.quote_token_updates);
            &&& same_but_stage(a, b)
            &&& (b.stage, action) == (if hashes.len() > 0 {
                (Stage::RemovingForQuote, ActionModel::Remove(hashes))
            } else {
                (Stage::UpdatingNonces, ActionModel::UpdateNonces)
            })
        },
        (Stage::RemovingForQuote, MaintenanceReply::Removed(txs)) => {
            &&& same_but_expiries(
                a,
                b,
                without_all_tracked(a.state.expiries(), hashes_of(txs@)),
            )
            &&& b.stage == Stage::ReaddingForQuote
            &&& action == ActionModel::Readd(txs@)
        },
        (Stage::ReaddingForQuote, MaintenanceReply::Done) => {
            &&& same_but_stage(a, b)
            &&& b.stage == Stage::UpdatingNonces
            &&& action == ActionModel::UpdateNonces
        },
        (Stage::UpdatingNonces, MaintenanceReply::Done) => {
            &&& same_but_stage(a, b)
            &&& b.stage == Stage::UpdatingLiquidity
            &&& action == ActionModel::UpdateLiquidity
        },
        (Stage::UpdatingLiquidity, MaintenanceReply::Done) => {
            &&& same_but_stage(a, b)
            &&& (b.stage, action) == invalidation_next(a)
        },
        (Stage::EvictingInvalidated, MaintenanceReply::Evicted(hashes)) => {
            &&& same_but_expiries(a, b, without_all_tracked(a.state.expiries(), hashes@))
            &&& (b.stage, action) == staleness_next(a)
        },
        (Stage::ListingPending, MaintenanceReply::Pending(pending)) => {
            &&& b.updates == a.updates
            &&& b.plan == a.plan
            &&& b.tip_timestamp == a.tip_timestamp
            &&& exists|stale: Seq<TxHash>| #[trigger]
                found_stale(a.state, pending@, a.tip_timestamp, stale, b.state) && (b.stage, action)
                    == (if stale.len() > 0 {
                    (Stage::RemovingStale, ActionModel::Remove(stale))
                } else {
                    (Stage::Idle, ActionModel::Finished)
                })
        },
        (Stage::RemovingStale, MaintenanceReply::Removed(_)) => {
            &&& same_but_stage(a, b)
            &&& b.stage == Stage::Idle
            &&& action == ActionModel::Finished
        },
        _ => b == a && action == ActionModel::Unexpected,
    }
}

/// The first token of the plan is taken up, and the rest of the plan is kept.
pub open spec fn planned(
    a: PoolMaintenance,
    plan: Seq<(Address, Vec<TxHash>)>,
    b: PoolMaintenance,
    action: ActionModel,
) -> bool {
    if plan.len() > 0 {
        &&& b.stage == Stage::RemovingPaused(plan[0].0)
        &&& action == ActionModel::Remove(plan[0].1@)
        &&& b.plan@ == plan.remove(0)
    } else {
        &&& (b.stage, action) == unpause_next(a, 0)
        &&& b.plan@ == plan
    }
}

/// The stale transactions: those that are pending and were so at the last look, if the next look
/// is due. They are tracked no longer.
pub open spec fn found_stale(
    a: TempoPoolState,
    pending: Seq<TxHash>,
    now: u64,
    stale: Seq<TxHash>,
    b: TempoPoolState,
) -> bool {
    &&& b.wf()
    &&& if a.pending_staleness.is_due(now) {
        &&& forall|h: TxHash| #[trigger]
            stale.contains(h) <==> pending.contains(h)
                && a.pending_staleness.seen_pending().contains(h)
        &&& stale.no_duplicates()
        &&& b.expiries() == without_all_tracked(a.expiries(), stale)
        &&& b.pending_staleness.seen_pending() == pending.to_set().difference(
            a.pending_staleness.seen_pending(),
        )
        &&& b.pending_staleness.last_snapshot_time == Some(now)
        &&& b.pending_staleness.interval_secs == a.pending_staleness.interval_secs
    } else {
        stale.len() == 0 && b == a
    }
}

impl PoolMaintenance {
    /// What is tracked and what the block changed is well-formed.
    pub open spec fn wf(&self) -> bool {
        self.state.wf() && self.updates.wf()
    }

    /// Creates a machine that tracks the transactions that are in the pool already.
    pub fn new(existing: &PoolTransactions) -> (r: Self)
        ensures
            r.wf(),
            r.stage == Stage::Idle,
            r.state.expiries() == with_all_tracked(
                (Expiries { buckets: Map::empty(), by_hash: Map::empty() }),
                existing@,
            ),
            expiries_agree(existing@) ==> buckets_exact(r.state.expiries()),
            r.updates@ == no_updates(),
            r.plan@.len() == 0,
    {
        let mut state = TempoPoolState::new();
        let ghost start = state.expiries();
        let mut i: usize = 0;
        assert(existing@.take(0) =~= Seq::empty());
        while i < existing.len()
            invariant
                state.wf(),
                i <= existing@.len(),
                state.expiries() == with_all_tracked(start, existing@.take(i as int)),
            decreases existing@.len() - i,
        {
            proof {
                assert(existing@.take(i + 1).drop_last() =~= existing@.take(i as int));
                assert(existing@.take(i + 1).last() == existing@[i as int]);
            }
            state.track(&existing[i].transaction);
            i = i + 1;
        }
        assert(existing@.take(i as int) =~= existing@);
        proof {
            if expiries_agree(existing@) {
                law_tracking_a_pool_is_exact(existing@);
            }
        }
        PoolMaintenance {
            state,
            updates: TempoPoolUpdates::new(),
            plan: Vec::new(),
            tip_timestamp: 0,
            stage: Stage::Idle,
        }
    }

    /// Takes note of a transaction that is new in the pool.
    pub fn on_new_transaction(&mut self, tx: &TempoPooledTransaction)
        requires
            old(self).wf(),
        ensures
            final(self).wf(),
            same_but_expiries(
                *old(self),
                *final(self),
                with_tracked(old(self).state.expiries(), *tx),
            ),
            buckets_exact(old(self).state.expiries()) && keeps_expiry(
                old(self).state.expiries(),
                *tx,
            ) ==> buckets_exact(final(self).state.expiries()),
            final(self).stage == old(self).stage,
    {
        self.state.track(tx);
    }

    /// Starts on a new block: notes what it changed, and stops tracking what was mined and what
    /// expires soon.
    ///
    /// A block that comes before the last one is done is not taken up.
    pub fn on_chain_event(
        &mut self,
        reorg: bool,
        logs: &Vec<PoolLog>,
        at: &SystemAddresses,
        mined: &[TxHash],
        tip_timestamp: u64,
    ) -> (r: MaintenanceAction)
        requires
            old(self).wf(),
        ensures
            final(self).wf(),
            if old(self).stage == Stage::Idle {
                let tracked_on = without_all_tracked(old(self).state.expiries(), mined@);
                &&& final(self).state.expiries() == without_due(
                    tracked_on,
                    max_expiry(tip_timestamp),
                )
                &&& final(self).state.pending_staleness == old(self).state.pending_staleness
                &&& final(self).updates@ == (Updates {
                    expired_txs: final(self).updates@.expired_txs,
                    ..with_logs(no_updates(), logs@, *at)
                })
                &&& forall|h: TxHash| #[trigger]
                    final(self).updates@.expired_txs.contains(h) <==> due(
                        tracked_on,
                        max_expiry(tip_timestamp),
                        h,
                    )
                &&& final(self).plan@.len() == 0
                &&& final(self).tip_timestamp == tip_timestamp
                &&& (final(self).stage, r@) == (if reorg {
                    (Stage::Repopulating, ActionModel::RepopulateLiquidity)
                } else {
                    expiry_next(*final(self))
                })
            } else {
                *final(self) == *old(self) && r@ == ActionModel::Unexpected
            },
            buckets_exact(old(self).state.expiries()) ==> {
                &&& buckets_exact(final(self).state.expiries())
                &&& old(self).stage == Stage::Idle ==> forall|h: TxHash| #[trigger]
                    final(self).updates@.expired_txs.contains(h) <==> old(
                        self,
                    ).state.expiries().by_hash.contains_key(h) && old(
                        self,
                    ).state.expiries().by_hash[h] <= max_expiry(tip_timestamp)
                        && !mined@.contains(h)
            },
    {
        match self.stage {
            Stage::Idle => {},
            _ => {
                return MaintenanceAction::Unexpected;
            },
        }
        self.updates = self.state.on_block(logs, at, mined, tip_timestamp);
        self.plan = Vec::new();
        self.tip_timestamp = tip_timestamp;
        let (stage, action) = if reorg {
            (Stage::Repopulating, MaintenanceAction::RepopulateLiquidity)
        } else {
            self.from_expiry()
        };
        let ghost before = *self;
        self.stage = stage;
        assert(expiry_next(*self) == expiry_next(before)) by {
            lemma_next_ignores_stage(before, *self);
        }
        action
    }
}

/// Where the machine goes does not depend on where it is.
proof fn lemma_next_ignores_stage(a: PoolMaintenance, b: PoolMaintenance)
    requires
        same_but_stage(a, b),
    ensures
        expiry_next(a) == expiry_next(b),
        pause_next(a) == pause_next(b),
        forall|i: int| #[trigger] unpause_next(a, i) == unpause_next(b, i),
{
    assert forall|i: int| #[trigger] unpause_next(a, i) == unpause_next(b, i) by {
        lemma_unpause_ignores(a, b, i);
    }
}

/// Which token is unpaused next depends only on the events and the timestamp.
proof fn lemma_unpause_ignores(a: PoolMaintenance, b: PoolMaintenance, from: int)
    requires
        a.updates@.pause_events == b.updates@.pause_events,
        a.tip_timestamp == b.tip_timestamp,
    ensures
        unpause_next(a, from) == unpause_next(b, from),
    decreases a.updates@.pause_events.len() - from,
{
    if 0 <= from < a.updates@.pause_events.len() {
        lemma_unpause_ignores(a, b, from + 1);
    }
}

/// Copies some hashes.
fn copied(hashes: &Vec<TxHash>) -> (r: Vec<TxHash>)
    ensures
        r@ == hashes@,
{
    let mut r: Vec<TxHash> = Vec::new();
    let mut i: usize = 0;
    while i < hashes.len()
        invariant
            i <= hashes@.len(),
            r@ == hashes@.take(i as int),
        decreases hashes@.len() - i,
    {
        proof {
            assert(hashes@.take(i + 1) =~= hashes@.take(i as int).push(hashes@[i as int]));
        }
        r.push(hashes[i]);
        i = i + 1;
    }
    assert(hashes@.take(i as int) =~= hashes@);
    r
}

/// Returns the entries under which some transactions are put aside.
fn to_entries(txs: &PoolTransactions) -> (r: Vec<PausedEntry>)
    ensures
        r@ == paused_entries(txs@),
{
    let mut r: Vec<PausedEntry> = Vec::new();
    let mut i: usize = 0;
    while i < txs.len()
        invariant
            i <= txs@.len(),
            r@ == paused_entries(txs@.take(i as int)),
        decreases txs@.len() - i,
    {
        let entry = PausedEntry {
            tx: share(&txs[i]),
            valid_before: valid_before(&txs[i].transaction),
        };
        proof {
            assert(paused_entries(txs@.take(i + 1)) =~= paused_entries(txs@.take(i as int)).push(
                entry,
            ));
        }
        r.push(entry);
        i = i + 1;
    }
    assert(txs@.take(i as int) =~= txs@);
    r
}

/// Returns the hashes of some transactions.
fn to_hashes(txs: &PoolTransactions) -> (r: Vec<TxHash>)
    ensures
        r@ == hashes_of(txs@),
{
    let mut r: Vec<TxHash> = Vec::new();
    let mut i: usize = 0;
    while i < txs.len()
        invariant
            i <= txs@.len(),
            r@ == hashes_of(txs@.take(i as int)),
        decreases txs@.len() - i,
    {
        proof {
            assert(hashes_of(txs@.take(i + 1)) =~= hashes_of(txs@.take(i as int)).push(
                txs@[i as int].spec_hash(),
            ));
        }
        r.push(*txs[i].hash());
        i = i + 1;
    }
    assert(txs@.take(i as int) =~= txs@);
    r
}

impl PoolMaintenance {
    fn from_staleness(&self) -> (r: (Stage, MaintenanceAction))
        ensures
            (r.0, r.1@) == staleness_next(*self),
    {
        if self.state.pending_staleness.should_check(self.tip_timestamp) {
            (Stage::ListingPending, MaintenanceAction::ListPending)
        } else {
            (Stage::Idle, MaintenanceAction::Finished)
        }
    }

    fn from_invalidation(&self) -> (r: (Stage, MaintenanceAction))
        requires
            self.wf(),
        ensures
            (r.0, r.1@) == invalidation_next(*self),
    {
        if self.updates.has_invalidation_events() {
            (Stage::EvictingInvalidated, MaintenanceAction::EvictInvalidated)
        } else {
            self.from_staleness()
        }
    }

    fn from_quote(&self) -> (r: (Stage, MaintenanceAction))
        requires
            self.wf(),
        ensures
            (r.0, r.1@) == quote_next(*self),
    {
        if !no_members(&self.updates.quote_token_updates) {
            (Stage::ListingForQuote, MaintenanceAction::ListTransactions)
        } else {
            (Stage::UpdatingNonces, MaintenanceAction::UpdateNonces)
        }
    }

    fn from_policy(&self) -> (r: (Stage, MaintenanceAction))
        requires
            self.wf(),
        ensures
            (r.0, r.1@) == policy_next(*self),
    {
        if !no_members(&self.updates.transfer_policy_updates) {
            (Stage::ListingForPolicy, MaintenanceAction::ListTransactions)
        } else {
            self.from_quote()
        }
    }

    fn from_paused(&self) -> (r: (Stage, MaintenanceAction))
        requires
            self.wf(),
        ensures
            (r.0, r.1@) == paused_next(*self),
    {
        if self.updates.has_paused_invalidations() {
            (Stage::EvictingPausedInvalidated, MaintenanceAction::EvictPausedInvalidated)
        } else {
            self.from_policy()
        }
    }

    fn from_unpause(&self, from: usize) -> (r: (Stage, MaintenanceAction))
        ensures
            (r.0, r.1@) == unpause_next(*self, from as int),
    {
        let mut i: usize = from;
        while i < self.updates.pause_events.len()
            invariant
                unpause_next(*self, from as int) == unpause_next(*self, i as int),
            decreases self.updates.pause_events@.len() - i,
        {
            let (token, is_paused) = self.updates.pause_events[i];
            if !is_paused {
                return (Stage::Unpausing(i + 1), MaintenanceAction::Unpause(token));
            }
            i = i + 1;
        }
        (
            Stage::EvictingPaused,
            MaintenanceAction::EvictPaused { tip_timestamp: self.tip_timestamp },
        )
    }

    fn from_pause(&self) -> (r: (Stage, MaintenanceAction))
        ensures
            (r.0, r.1@) == pause_next(*self),
    {
        if changed_tokens(&self.updates.pause_events, true).len() > 0 {
            (Stage::ListingForPause, MaintenanceAction::ListTransactions)
        } else {
            self.from_unpause(0)
        }
    }

    fn from_expiry(&self) -> (r: (Stage, MaintenanceAction))
        ensures
            (r.0, r.1@) == expiry_next(*self),
    {
        if self.updates.expired_txs.len() > 0 {
            (
                Stage::CheckingExpired,
                MaintenanceAction::CheckPooled(copied(&self.updates.expired_txs)),
            )
        } else {
            self.from_pause()
        }
    }

    /// Takes up the first token of the plan.
    fn take_plan(&mut self) -> (r: MaintenanceAction)
        ensures
            final(self).state == old(self).state,
            final(self).updates == old(self).updates,
            final(self).tip_timestamp == old(self).tip_timestamp,
            planned(*old(self), old(self).plan@, *final(self), r@),
    {
        if self.plan.len() > 0 {
            let (token, hashes) = self.plan.remove(0);
            self.stage = Stage::RemovingPaused(token);
            MaintenanceAction::Remove(hashes)
        } else {
            let (stage, action) = self.from_unpause(0);
            self.stage = stage;
            action
        }
    }

    /// Stops tracking transactions that were removed.
    fn untrack_removed(&mut self, txs: &PoolTransactions)
        requires
            old(self).wf(),
        ensures
            final(self).wf(),
            same_but_expiries(
                *old(self),
                *final(self),
                without_all_tracked(old(self).state.expiries(), hashes_of(txs@)),
            ),
            buckets_exact(old(self).state.expiries()) ==> buckets_exact(
                final(self).state.expiries(),
            ),
            final(self).stage == old(self).stage,
    {
        let hashes = to_hashes(txs);
        self.state.untrack_many(hashes.as_slice());
    }

    /// Goes on after a reply. A reply that does not fit leaves the machine as it is.
    pub fn resume(&mut self, reply: MaintenanceReply) -> (r: MaintenanceAction)
        requires
            old(self).wf(),
        ensures
            final(self).wf(),
            resumed(*old(self), reply, *final(self), r@),
            buckets_exact(old(self).state.expiries()) ==> buckets_exact(
                final(self).state.expiries(),
            ),
    {
        let (stage, action): (Stage, MaintenanceAction) = match (self.stage, reply) {
            (Stage::Repopulating, MaintenanceReply::Done) => self.from_expiry(),
            (Stage::CheckingExpired, MaintenanceReply::Pooled(marks)) => {
                if marks.len() != self.updates.expired_txs.len() {
                    return MaintenanceAction::Unexpected;
                }
                let left = keep_pooled(&self.updates.expired_txs, &marks);
                let remove = copied(&left);
                self.updates.expired_txs = left;
                assert(self.updates@ =~= (Updates {
                    expired_txs: left@,
                    ..old(self).updates@
                }));
                if remove.len() > 0 {
                    (Stage::RemovingExpired, MaintenanceAction::Remove(remove))
                } else {
                    self.from_pause()
                }
            },
            (Stage::RemovingExpired, MaintenanceReply::Removed(_)) => self.from_pause(),
            (Stage::ListingForPause, MaintenanceReply::Transactions(txs)) => {
                self.plan = plan_pauses(&self.updates.pause_events, &txs);
                let ghost plan = self.plan@;
                let ghost middle = *self;
                let action = self.take_plan();
                proof {
                    lemma_unpause_ignores(*old(self), middle, 0);
                    assert(planned(*old(self), plan, *self, action@));
                    assert(plan_view(plan) == pause_plan(
                        tokens_with(old(self).updates@.pause_events, true),
                        by_fee_token(txs@),
                    ));
                }
                return action;
            },
            (Stage::RemovingPaused(token), MaintenanceReply::Removed(txs)) => {
                if txs.len() > 0 {
                    self.untrack_removed(&txs);
                    (
                        Stage::Pausing,
                        MaintenanceAction::Pause { token, entries: to_entries(&txs) },
                    )
                } else {
                    return self.take_plan();
                }
            },
            (Stage::Pausing, MaintenanceReply::Done) => {
                return self.take_plan();
            },
            (Stage::Unpausing(next), MaintenanceReply::Done) => self.from_unpause(next),
            (Stage::EvictingPaused, MaintenanceReply::Done) => self.from_paused(),
            (Stage::EvictingPausedInvalidated, MaintenanceReply::Done) => self.from_policy(),
            (Stage::ListingForPolicy, MaintenanceReply::Transactions(txs)) => {
                let hashes = to_revalidate(&txs, &self.updates.transfer_policy_updates);
                if hashes.len() > 0 {
                    (Stage::RemovingForPolicy, MaintenanceAction::Remove(hashes))
                } else {
                    self.from_quote()
                }
            },
            (Stage::RemovingForPolicy, MaintenanceReply::Removed(txs)) => {
                self.untrack_removed(&txs);
                (Stage::ReaddingForPolicy, MaintenanceAction::Readd(txs))
            },
            (Stage::ReaddingForPolicy, MaintenanceReply::Done) => self.from_quote(),
            (Stage::ListingForQuote, MaintenanceReply::Transactions(txs)) => {
                let hashes = to_revalidate(&txs, &self.updates.quote_token_updates);
                if hashes.len() > 0 {
                    (Stage::RemovingForQuote, MaintenanceAction::Remove(hashes))
                } else {
                    (Stage::UpdatingNonces, MaintenanceAction::UpdateNonces)
                }
            },
            (Stage::RemovingForQuote, MaintenanceReply::Removed(txs)) => {
                self.untrack_removed(&txs);
                (Stage::ReaddingForQuote, MaintenanceAction::Readd(txs))
            },
            (Stage::ReaddingForQuote, MaintenanceReply::Done) => {
                (Stage::UpdatingNonces, MaintenanceAction::UpdateNonces)
            },
            (Stage::UpdatingNonces, MaintenanceReply::Done) => {
                (Stage::UpdatingLiquidity, MaintenanceAction::UpdateLiquidity)
            },
            (Stage::UpdatingLiquidity, MaintenanceReply::Done) => self.from_invalidation(),
            (Stage::EvictingInvalidated, MaintenanceReply::Evicted(hashes)) => {
                self.state.untrack_many(hashes.as_slice());
                self.from_staleness()
            },
            (Stage::ListingPending, MaintenanceReply::Pending(pending)) => {
                let stale = self.state.evict_stale(&pending, self.tip_timestamp);
                assert(found_stale(
                    old(self).state,
                    pending@,
                    self.tip_timestamp,
                    stale@,
                    self.state,
                ));
                if stale.len() > 0 {
                    (Stage::RemovingStale, MaintenanceAction::Remove(stale))
                } else {
                    (Stage::Idle, MaintenanceAction::Finished)
                }
            },
            (Stage::RemovingStale, MaintenanceReply::Removed(_)) => {
                (Stage::Idle, MaintenanceAction::Finished)
            },
            _ => {
                return MaintenanceAction::Unexpected;
            },
        };
        let ghost before = *self;
        self.stage = stage;
        proof {
            lemma_next_ignores_stage(before, *self);
        }
        action
    }
}

/// How far a stage is from the end of the block.
pub open spec fn distance(stage: Stage) -> nat {
    match stage {
        Stage::Idle => 0,
        Stage::RemovingStale => 1,
        Stage::ListingPending => 2,
        Stage::EvictingInvalidated => 3,
        Stage::UpdatingLiquidity => 4,
        Stage::UpdatingNonces => 5,
        Stage::ReaddingForQuote => 6,
        Stage::RemovingForQuote => 7,
        Stage::ListingForQuote => 8,
        Stage::ReaddingForPolicy => 9,
        Stage::RemovingForPolicy => 10,
        Stage::ListingForPolicy => 11,
        Stage::EvictingPausedInvalidated => 12,
        Stage::EvictingPaused => 13,
        Stage::Unpausing(_) => 14,
        Stage::Pausing | Stage::RemovingPaused(_) => 15,
        Stage::ListingForPause => 16,
        Stage::RemovingExpired => 17,
        Stage::CheckingExpired => 18,
        Stage::Repopulating => 19,
    }
}

/// What is left to do within a stage: tokens to put aside, or pause events to look at.
pub open spec fn within(m: PoolMaintenance) -> nat {
    match m.stage {
        Stage::RemovingPaused(_) => 2 * m.plan@.len() + 1,
        Stage::Pausing => 2 * m.plan@.len(),
        Stage::Unpausing(next) => if next <= m.updates@.pause_events.len() {
            (m.updates@.pause_events.len() - next) as nat
        } else {
            0
        },
        _ => 0,
    }
}

/// The next event that is looked at lies further on.
proof fn lemma_unpause_moves_on(m: PoolMaintenance, from: int)
    requires
        0 <= from,
    ensures
        match unpause_next(m, from).0 {
            Stage::EvictingPaused => true,
            Stage::Unpausing(next) => from < next <= m.updates@.pause_events.len(),
            _ => false,
        },
    decreases m.updates@.pause_events.len() - from,
{
    assert(m.updates@.pause_events.len() == m.updates.pause_events.len());
    if from < m.updates@.pause_events.len() && m.updates@.pause_events[from].1 {
        lemma_unpause_moves_on(m, from + 1);
    }
}

/// Every reply that fits brings the machine closer to the end of the block: it never goes back to
/// an earlier stage, and within a stage it has less to do. So the nonces are updated before stale
/// transactions are looked for, and the liquidity cache before invalid ones are removed.
pub proof fn law_a_block_comes_to_an_end(
    a: PoolMaintenance,
    reply: MaintenanceReply,
    b: PoolMaintenance,
    action: ActionModel,
)
    requires
        resumed(a, reply, b, action),
        action != ActionModel::Unexpected,
    ensures
        distance(b.stage) < distance(a.stage) || (distance(b.stage) == distance(a.stage) && within(
            b,
        ) < within(a)),
{
    lemma_unpause_moves_on(a, 0);
    lemma_unpause_moves_on(b, 0);
    match a.stage {
        Stage::Unpausing(next) => {
            lemma_unpause_moves_on(a, next as int);
        },
        _ => {},
    }
}

/// The machine stops exactly when the block is done.
pub proof fn law_done_is_idle(
    a: PoolMaintenance,
    reply: MaintenanceReply,
    b: PoolMaintenance,
    action: ActionModel,
)
    requires
        resumed(a, reply, b, action),
        action != ActionModel::Unexpected,
    ensures
        action == ActionModel::Finished <==> b.stage == Stage::Idle,
{
    lemma_unpause_moves_on(a, 0);
    lemma_unpause_moves_on(b, 0);
    match a.stage {
        Stage::Unpausing(next) => {
            lemma_unpause_moves_on(a, next as int);
        },
        _ => {},
    }
    lemma_unpause_action(a, 0);
    lemma_unpause_action(b, 0);
    match a.stage {
        Stage::Unpausing(next) => {
            lemma_unpause_action(a, next as int);
        },
        _ => {},
    }
}

/// Looking at pause events never ends the block.
proof fn lemma_unpause_action(m: PoolMaintenance, from: int)
    ensures
        unpause_next(m, from).1 != ActionModel::Finished,
    decreases m.updates@.pause_events.len() - from,
{
    if 0 <= from < m.updates@.pause_events.len() {
        lemma_unpause_action(m, from + 1);
    }
}

/// Transactions that leave the pool because of a pause or of a changed token are tracked no
/// longer.
pub proof fn law_removed_are_not_tracked(
    a: PoolMaintenance,
    txs: PoolTransactions,
    b: PoolMaintenance,
    action: ActionModel,
    i: int,
)
    requires
        resumed(a, MaintenanceReply::Removed(txs), b, action),
        a.stage is RemovingPaused || a.stage is RemovingForPolicy || a.stage is RemovingForQuote,
        0 <= i < txs@.len(),
    ensures
        !b.state.expiries().by_hash.contains_key(txs@[i].spec_hash()),
{
    lemma_all_untracked(a.state.expiries(), hashes_of(txs@), i);
}

/// What was removed from the tracked transactions is not among them.
proof fn lemma_all_untracked(e: Expiries, hashes: Seq<TxHash>, i: int)
    requires
        0 <= i < hashes.len(),
    ensures
        !without_all_tracked(e, hashes).by_hash.contains_key(hashes[i]),
    decreases hashes.len(),
{
    if i < hashes.len() - 1 {
        lemma_all_untracked(e, hashes.drop_last(), i);
    }
}

} // verus!
