//! Pool maintenance: when tracked transactions expire, which pending ones are stale, and which ones
//! a new block touches.
use crate::ordered::{lemma_key_has_entry, OrdKey, SortedMap};
use crate::primitives::TxHash;
use crate::sets::{
    add_member, all_sorted, lemma_member_list, member_list, remove_member, sets, with_member,
    without_member, SortedSet,
};
use crate::transaction::TempoPooledTransaction;
use vstd::prelude::*;

verus! {

/// Evict transactions this many seconds before they expire, to reduce propagation of transactions
/// that are likely to fail validation on peers.
pub const EVICTION_BUFFER_SECS: u64 = 3;

/// Default interval for pending transaction staleness checks, in seconds: half an hour.
pub const DEFAULT_PENDING_STALENESS_INTERVAL: u64 = 1800;

/// When a transaction expires.
pub open spec fn spec_valid_before(tx: TempoPooledTransaction) -> Option<u64> {
    match tx.inner.aa {
        Some(aa) => aa.valid_before,
        None => None,
    }
}

/// Returns when a transaction expires.
pub fn valid_before(tx: &TempoPooledTransaction) -> (r: Option<u64>)
    ensures
        r == spec_valid_before(*tx),
{
    match &tx.inner.aa {
        Some(aa) => aa.valid_before,
        None => None,
    }
}

/// When a transaction or the key that signed it expires, whichever comes first.
pub open spec fn expiry_of(tx: TempoPooledTransaction) -> Option<u64> {
    match (spec_valid_before(tx), tx.spec_key_expiry()) {
        (Some(a), Some(b)) => Some(if a < b { a } else { b }),
        (Some(a), None) => Some(a),
        (None, b) => b,
    }
}

/// Which transactions are tracked for expiry.
#[verifier::ext_equal]
pub struct Expiries {
    /// The transactions that expire at each timestamp.
    pub buckets: Map<u64, Set<TxHash>>,
    /// When each tracked transaction expires.
    pub by_hash: Map<TxHash, u64>,
}

/// What always holds of the tracked transactions: each is in the bucket of its expiry, and no
/// bucket is empty.
pub open spec fn expiries_inv(e: Expiries) -> bool {
    &&& forall|h: TxHash| #[trigger]
        e.by_hash.contains_key(h) ==> e.buckets.contains_key(e.by_hash[h])
            && e.buckets[e.by_hash[h]].contains(h)
    &&& forall|t: u64| #[trigger]
        e.buckets.contains_key(t) ==> e.buckets[t] != Set::<TxHash>::empty()
}

/// The buckets hold nothing else: whatever is in a bucket is tracked, with the expiry of that
/// bucket. So each transaction is in one bucket at most.
pub open spec fn buckets_exact(e: Expiries) -> bool {
    forall|t: u64, h: TxHash|
        #![trigger e.buckets[t].contains(h)]
        e.buckets.contains_key(t) && e.buckets[t].contains(h) ==> e.by_hash.contains_key(h)
            && e.by_hash[h] == t
}

/// The transaction is not tracked, or is tracked with the given expiry.
pub open spec fn may_expire_at(e: Expiries, hash: TxHash, expiry: u64) -> bool {
    e.by_hash.contains_key(hash) ==> e.by_hash[hash] == expiry
}

/// The transaction does not expire, is not tracked, or is tracked with the expiry that it has.
pub open spec fn keeps_expiry(e: Expiries, tx: TempoPooledTransaction) -> bool {
    match expiry_of(tx) {
        Some(expiry) => may_expire_at(e, tx.inner.hash, expiry),
        None => true,
    }
}

/// The tracked transactions after one was added with its expiry.
pub open spec fn with_expiry(e: Expiries, hash: TxHash, expiry: u64) -> Expiries {
    Expiries {
        buckets: with_member(e.buckets, expiry, hash),
        by_hash: e.by_hash.insert(hash, expiry),
    }
}

/// The tracked transactions after one was added, if it expires.
pub open spec fn with_tracked(e: Expiries, tx: TempoPooledTransaction) -> Expiries {
    match expiry_of(tx) {
        Some(expiry) => with_expiry(e, tx.inner.hash, expiry),
        None => e,
    }
}

/// The tracked transactions after one was removed.
pub open spec fn without_tracked(e: Expiries, hash: TxHash) -> Expiries {
    if e.by_hash.contains_key(hash) {
        Expiries {
            buckets: without_member(e.buckets, e.by_hash[hash], hash),
            by_hash: e.by_hash.remove(hash),
        }
    } else {
        e
    }
}

/// The tracked transactions after some were removed.
pub open spec fn without_all_tracked(e: Expiries, hashes: Seq<TxHash>) -> Expiries
    decreases hashes.len(),
{
    if hashes.len() == 0 {
        e
    } else {
        without_tracked(without_all_tracked(e, hashes.drop_last()), hashes.last())
    }
}

/// A transaction is in a bucket up to the timestamp.
pub open spec fn due(e: Expiries, timestamp: u64, hash: TxHash) -> bool {
    exists|t: u64| t <= timestamp && #[trigger] e.buckets.contains_key(t) && e.buckets[t].contains(
        hash,
    )
}

/// The tracked transactions after all buckets up to a timestamp were removed.
pub open spec fn without_due(e: Expiries, timestamp: u64) -> Expiries {
    Expiries {
        buckets: e.buckets.restrict(Set::new(|t: u64| t > timestamp)),
        by_hash: e.by_hash.restrict(Set::new(|h: TxHash| !due(e, timestamp, h))),
    }
}

/// Removing a transaction keeps what always holds, and so does adding one.
pub proof fn lemma_tracking_inv(e: Expiries, hash: TxHash, expiry: u64)
    requires
        expiries_inv(e),
    ensures
        expiries_inv(with_expiry(e, hash, expiry)),
        expiries_inv(without_tracked(e, hash)),
{
    let a = with_expiry(e, hash, expiry);
    assert forall|t: u64| #[trigger] a.buckets.contains_key(t) implies a.buckets[t] != Set::<
        TxHash,
    >::empty() by {
        if t == expiry {
            assert(a.buckets[t].contains(hash));
        } else {
            assert(e.buckets.contains_key(t));
        }
    }
    assert forall|h: TxHash| #[trigger] a.by_hash.contains_key(h) implies a.buckets.contains_key(
        a.by_hash[h],
    ) && a.buckets[a.by_hash[h]].contains(h) by {
        if h != hash {
            assert(e.by_hash.contains_key(h));
        }
    }
    let b = without_tracked(e, hash);
    if e.by_hash.contains_key(hash) {
        let t0 = e.by_hash[hash];
        assert forall|h: TxHash| #[trigger] b.by_hash.contains_key(h) implies b.buckets.contains_key(
            b.by_hash[h],
        ) && b.buckets[b.by_hash[h]].contains(h) by {
            assert(e.by_hash.contains_key(h));
            assert(h != hash);
            if e.by_hash[h] == t0 {
                assert(e.buckets[t0].remove(hash).contains(h));
            }
        }
        assert forall|t: u64| #[trigger] b.buckets.contains_key(t) implies b.buckets[t] != Set::<
            TxHash,
        >::empty() by {
            assert(e.buckets.contains_key(t));
        }
    }
}

/// Removing all that is due keeps what always holds.
pub proof fn lemma_without_due_inv(e: Expiries, timestamp: u64)
    requires
        expiries_inv(e),
    ensures
        expiries_inv(without_due(e, timestamp)),
{
    let a = without_due(e, timestamp);
    assert forall|h: TxHash| #[trigger] a.by_hash.contains_key(h) implies a.buckets.contains_key(
        a.by_hash[h],
    ) && a.buckets[a.by_hash[h]].contains(h) by {
        assert(e.by_hash.contains_key(h));
        let t = e.by_hash[h];
        assert(e.buckets.contains_key(t) && e.buckets[t].contains(h));
        if t <= timestamp {
            assert(due(e, timestamp, h));
        }
    }
    assert forall|t: u64| #[trigger] a.buckets.contains_key(t) implies a.buckets[t] != Set::<
        TxHash,
    >::empty() by {
        assert(e.buckets.contains_key(t));
    }
}

/// Tracking a transaction that is new, or that keeps its expiry, keeps the buckets exact.
pub proof fn law_track_keeps_exact(e: Expiries, hash: TxHash, expiry: u64)
    requires
        buckets_exact(e),
        may_expire_at(e, hash, expiry),
    ensures
        buckets_exact(with_expiry(e, hash, expiry)),
{
    let a = with_expiry(e, hash, expiry);
    assert forall|t: u64, h: TxHash|
        #![trigger a.buckets[t].contains(h)]
        a.buckets.contains_key(t) && a.buckets[t].contains(h) implies a.by_hash.contains_key(h)
        && a.by_hash[h] == t by {
        if h != hash || t != expiry {
            assert(e.buckets.contains_key(t) && e.buckets[t].contains(h));
        }
    }
}

/// Removing a transaction from the tracked ones keeps the buckets exact. It is in none of them
/// then.
pub proof fn law_untrack_keeps_exact(e: Expiries, hash: TxHash)
    requires
        buckets_exact(e),
    ensures
        buckets_exact(without_tracked(e, hash)),
        forall|t: u64|
            #![trigger without_tracked(e, hash).buckets[t]]
            without_tracked(e, hash).buckets.contains_key(t) ==> !without_tracked(
                e,
                hash,
            ).buckets[t].contains(hash),
{
    let a = without_tracked(e, hash);
    assert forall|t: u64, h: TxHash|
        #![trigger a.buckets[t].contains(h)]
        a.buckets.contains_key(t) && a.buckets[t].contains(h) implies h != hash
        && a.by_hash.contains_key(h) && a.by_hash[h] == t by {
        assert(e.buckets.contains_key(t) && e.buckets[t].contains(h));
    }
    assert forall|t: u64|
        #![trigger a.buckets[t]]
        a.buckets.contains_key(t) implies !a.buckets[t].contains(hash) by {
        if a.buckets[t].contains(hash) {
            assert(a.by_hash.contains_key(hash));
        }
    }
}

/// Removing several transactions from the tracked ones keeps the buckets exact. None of them is
/// tracked or in a bucket then, and every other one is tracked as before.
pub proof fn law_untrack_many_keeps_exact(e: Expiries, hashes: Seq<TxHash>)
    requires
        buckets_exact(e),
    ensures
        buckets_exact(without_all_tracked(e, hashes)),
        forall|h: TxHash| #[trigger]
            without_all_tracked(e, hashes).by_hash.contains_key(h) <==> e.by_hash.contains_key(h)
                && !hashes.contains(h),
        forall|h: TxHash| #[trigger]
            without_all_tracked(e, hashes).by_hash.contains_key(h) ==> without_all_tracked(
                e,
                hashes,
            ).by_hash[h] == e.by_hash[h],
    decreases hashes.len(),
{
    if hashes.len() > 0 {
        let front = hashes.drop_last();
        let last = hashes.last();
        law_untrack_many_keeps_exact(e, front);
        law_untrack_keeps_exact(without_all_tracked(e, front), last);
        assert(hashes =~= front.push(last));
        lemma_push_contains(front, last);
    }
}

/// Removing all that is due keeps the buckets exact.
pub proof fn law_drain_keeps_exact(e: Expiries, timestamp: u64)
    requires
        buckets_exact(e),
    ensures
        buckets_exact(without_due(e, timestamp)),
{
    let a = without_due(e, timestamp);
    assert forall|t: u64, h: TxHash|
        #![trigger a.buckets[t].contains(h)]
        a.buckets.contains_key(t) && a.buckets[t].contains(h) implies a.by_hash.contains_key(h)
        && a.by_hash[h] == t by {
        assert(e.buckets.contains_key(t) && e.buckets[t].contains(h));
        if due(e, timestamp, h) {
            let d = choose|d: u64|
                d <= timestamp && #[trigger] e.buckets.contains_key(d) && e.buckets[d].contains(h);
            assert(e.by_hash[h] == d);
        }
    }
}

/// While the buckets are exact, what is due is what is tracked with an expiry up to the timestamp.
pub proof fn law_due_is_expired(e: Expiries, timestamp: u64, hash: TxHash)
    requires
        expiries_inv(e),
        buckets_exact(e),
    ensures
        due(e, timestamp, hash) <==> e.by_hash.contains_key(hash) && e.by_hash[hash] <= timestamp,
{
    if due(e, timestamp, hash) {
        let t = choose|t: u64|
            t <= timestamp && #[trigger] e.buckets.contains_key(t) && e.buckets[t].contains(hash);
        assert(e.by_hash[hash] == t);
    }
    if e.by_hash.contains_key(hash) {
        assert(e.buckets.contains_key(e.by_hash[hash]));
    }
}

/// While the buckets are exact, what is due once some transactions were removed are the other ones
/// that expire up to the timestamp; in particular none of those that were removed.
pub proof fn law_removed_are_not_due(
    e: Expiries,
    hashes: Seq<TxHash>,
    timestamp: u64,
    hash: TxHash,
)
    requires
        expiries_inv(e),
        buckets_exact(e),
    ensures
        due(without_all_tracked(e, hashes), timestamp, hash) <==> e.by_hash.contains_key(hash)
            && e.by_hash[hash] <= timestamp && !hashes.contains(hash),
{
    lemma_untracking_inv(e, hashes);
    law_untrack_many_keeps_exact(e, hashes);
    law_due_is_expired(without_all_tracked(e, hashes), timestamp, hash);
}

proof fn lemma_untracking_inv(e: Expiries, hashes: Seq<TxHash>)
    requires
        expiries_inv(e),
    ensures
        expiries_inv(without_all_tracked(e, hashes)),
    decreases hashes.len(),
{
    if hashes.len() > 0 {
        lemma_untracking_inv(e, hashes.drop_last());
        lemma_tracking_inv(without_all_tracked(e, hashes.drop_last()), hashes.last(), 0);
    }
}

/// What is drained is exactly what is due: nothing with an expiry up to the timestamp stays, and
/// every tracked transaction with a later expiry that is in no earlier bucket does.
pub proof fn law_drain_is_exact(e: Expiries, timestamp: u64, hash: TxHash)
    requires
        expiries_inv(e),
    ensures
        !due(without_due(e, timestamp), timestamp, hash),
        e.by_hash.contains_key(hash) && e.by_hash[hash] <= timestamp ==> due(e, timestamp, hash)
            && !without_due(e, timestamp).by_hash.contains_key(hash),
        e.by_hash.contains_key(hash) && !due(e, timestamp, hash) ==> {
            &&& without_due(e, timestamp).by_hash.contains_key(hash)
            &&& without_due(e, timestamp).by_hash[hash] == e.by_hash[hash]
            &&& e.by_hash[hash] > timestamp
        },
{
    if e.by_hash.contains_key(hash) {
        let t = e.by_hash[hash];
        assert(e.buckets.contains_key(t) && e.buckets[t].contains(hash));
    }
}

/// Tracking a transaction and removing it again leaves it untracked, and leaves every other one
/// alone.
pub proof fn law_untrack_undoes_track(e: Expiries, hash: TxHash, expiry: u64, other: TxHash)
    requires
        expiries_inv(e),
        other != hash,
    ensures
        ({
            let after = without_tracked(with_expiry(e, hash, expiry), hash);
            &&& !after.by_hash.contains_key(hash)
            &&& after.buckets.contains_key(expiry) ==> !after.buckets[expiry].contains(hash)
            &&& after.by_hash.contains_key(other) == e.by_hash.contains_key(other)
            &&& e.by_hash.contains_key(other) ==> after.by_hash[other] == e.by_hash[other]
        }),
{
}

/// Tracks when transactions expire.
#[derive(Debug)]
pub struct TempoPoolState {
    /// The transactions that expire at each timestamp.
    pub expiry_map: SortedMap<u64, SortedSet<TxHash>>,
    /// When each tracked transaction expires.
    pub tx_to_expiry: SortedMap<TxHash, u64>,
    /// Tracks which pending transactions are stale.
    pub pending_staleness: PendingStalenessTracker,
}

impl TempoPoolState {
    /// What is tracked.
    pub open spec fn expiries(&self) -> Expiries {
        Expiries { buckets: sets(self.expiry_map@), by_hash: self.tx_to_expiry@ }
    }

    /// The maps are in order, and each tracked transaction is in the bucket of its expiry.
    pub open spec fn wf(&self) -> bool {
        &&& self.expiry_map.wf()
        &&& all_sorted(self.expiry_map@)
        &&& self.tx_to_expiry.wf()
        &&& expiries_inv(self.expiries())
        &&& self.pending_staleness.wf()
    }

    /// Creates a state that tracks nothing.
    pub fn new() -> (r: Self)
        ensures
            r.wf(),
            r.expiries() == (Expiries { buckets: Map::empty(), by_hash: Map::empty() }),
            buckets_exact(r.expiries()),
            r.pending_staleness.seen_pending() == Set::<TxHash>::empty(),
            r.pending_staleness.last_snapshot_time is None,
            r.pending_staleness.interval_secs == DEFAULT_PENDING_STALENESS_INTERVAL,
    {
        let r = TempoPoolState {
            expiry_map: SortedMap::new(),
            tx_to_expiry: SortedMap::new(),
            pending_staleness: PendingStalenessTracker::new(DEFAULT_PENDING_STALENESS_INTERVAL),
        };
        assert(r.expiries() =~= (Expiries { buckets: Map::empty(), by_hash: Map::empty() }));
        r
    }

    /// Tracks a transaction that expires, or whose key does.
    pub fn track(&mut self, tx: &TempoPooledTransaction)
        requires
            old(self).wf(),
        ensures
            final(self).wf(),
            final(self).expiries() == with_tracked(old(self).expiries(), *tx),
            buckets_exact(old(self).expiries()) && keeps_expiry(old(self).expiries(), *tx)
                ==> buckets_exact(final(self).expiries()),
            final(self).pending_staleness == old(self).pending_staleness,
    {
        let expiry: Option<u64> = match (valid_before(tx), tx.key_expiry()) {
            (Some(a), Some(b)) => Some(
                if a < b {
                    a
                } else {
                    b
                },
            ),
            (Some(a), None) => Some(a),
            (None, b) => b,
        };
        match expiry {
            Some(expiry) => {
                add_member(&mut self.expiry_map, expiry, *tx.hash());
                self.tx_to_expiry.insert(*tx.hash(), expiry);
                proof {
                    lemma_tracking_inv(old(self).expiries(), tx.inner.hash, expiry);
                    assert(self.expiries() =~= with_tracked(old(self).expiries(), *tx));
                    if buckets_exact(old(self).expiries()) && keeps_expiry(
                        old(self).expiries(),
                        *tx,
                    ) {
                        law_track_keeps_exact(old(self).expiries(), tx.inner.hash, expiry);
                    }
                }
            },
            None => {},
        }
    }

    /// Removes expiry and key-expiry tracking for a single transaction.
    pub fn untrack(&mut self, hash: &TxHash)
        requires
            old(self).wf(),
        ensures
            final(self).wf(),
            final(self).expiries() == without_tracked(old(self).expiries(), *hash),
            buckets_exact(old(self).expiries()) ==> buckets_exact(final(self).expiries()),
            final(self).pending_staleness == old(self).pending_staleness,
    {
        let expiry: Option<u64> = self.tx_to_expiry.remove(hash);
        match expiry {
            Some(expiry) => {
                remove_member(&mut self.expiry_map, expiry, hash);
            },
            None => {},
        }
        proof {
            lemma_tracking_inv(old(self).expiries(), *hash, 0);
            assert(self.expiries() =~= without_tracked(old(self).expiries(), *hash));
            if buckets_exact(old(self).expiries()) {
                law_untrack_keeps_exact(old(self).expiries(), *hash);
            }
        }
    }

    /// Removes expiry and key-expiry tracking for a batch of transactions.
    pub fn untrack_many(&mut self, hashes: &[TxHash])
        requires
            old(self).wf(),
        ensures
            final(self).wf(),
            final(self).expiries() == without_all_tracked(old(self).expiries(), hashes@),
            buckets_exact(old(self).expiries()) ==> buckets_exact(final(self).expiries()),
            final(self).pending_staleness == old(self).pending_staleness,
    {
        let mut i: usize = 0;
        assert(hashes@.take(0) =~= Seq::empty());
        while i < hashes.len()
            invariant
                self.wf(),
                i <= hashes@.len(),
                self.expiries() == without_all_tracked(
                    old(self).expiries(),
                    hashes@.take(i as int),
                ),
                self.pending_staleness == old(self).pending_staleness,
            decreases hashes@.len() - i,
        {
            proof {
                assert(hashes@.take(i + 1).drop_last() =~= hashes@.take(i as int));
            }
            self.untrack(&hashes[i]);
            i = i + 1;
        }
        assert(hashes@.take(i as int) =~= hashes@);
        proof {
            if buckets_exact(old(self).expiries()) {
                law_untrack_many_keeps_exact(old(self).expiries(), hashes@);
            }
        }
    }

    /// Collects and removes all expired transactions up to the given timestamp, those that expire
    /// first coming first.
    pub fn drain_expired(&mut self, tip_timestamp: u64) -> (r: Vec<TxHash>)
        requires
            old(self).wf(),
        ensures
            final(self).wf(),
            final(self).expiries() == without_due(old(self).expiries(), tip_timestamp),
            final(self).pending_staleness == old(self).pending_staleness,
            forall|h: TxHash| #[trigger]
                r@.contains(h) <==> due(old(self).expiries(), tip_timestamp, h),
            r@ == due_list(old(self).expiry_map.entries@, tip_timestamp),
            buckets_exact(old(self).expiries()) ==> buckets_exact(final(self).expiries()) && forall|
                h: TxHash,
            | #[trigger]
                r@.contains(h) <==> old(self).expiries().by_hash.contains_key(h) && old(
                    self,
                ).expiries().by_hash[h] <= tip_timestamp,
    {
        let ghost e = self.expiries();
        let ghost whole = due_list(self.expiry_map.entries@, tip_timestamp);
        let ghost mut gone: Set<u64> = Set::empty();
        let mut expired: Vec<TxHash> = Vec::new();
        assert(self.expiries() =~= without_buckets(e, gone));
        assert(expired@ + whole =~= whole);
        while self.expiry_map.entries.len() > 0 && self.expiry_map.entries[0].0 <= tip_timestamp
            invariant
                self.expiry_map.wf(),
                all_sorted(self.expiry_map@),
                self.tx_to_expiry.wf(),
                self.expiries() == without_buckets(e, gone),
                forall|t: u64| #[trigger] gone.contains(t) ==> t <= tip_timestamp,
                forall|h: TxHash| #[trigger] expired@.contains(h) <==> in_bucket(e, gone, h),
                expired@ + due_list(self.expiry_map.entries@, tip_timestamp) == whole,
                self.pending_staleness == old(self).pending_staleness,
            decreases self.expiry_map.entries@.len(),
        {
            let ghost before = self.expiries();
            let ghost so_far = expired@;
            let (key, bucket) = self.expiry_map.pop_first();
            let ghost by_hash = self.tx_to_expiry@;
            let ghost rest = self.expiry_map;
            let ghost list = member_list(bucket.entries@);
            proof {
                lemma_member_list(bucket);
                assert(before.buckets.contains_key(key));
                assert(before.buckets[key] == bucket@.dom());
            }
            let mut i: usize = 0;
            assert(list.take(0) =~= Seq::empty());
            assert(by_hash.restrict(Set::new(|h: TxHash| !list.take(0).contains(h))) =~= by_hash);
            while i < bucket.entries.len()
                invariant
                    list == member_list(bucket.entries@),
                    i <= list.len(),
                    self.expiry_map == rest,
                    self.pending_staleness == old(self).pending_staleness,
                    self.tx_to_expiry.wf(),
                    self.tx_to_expiry@ == by_hash.restrict(
                        Set::new(|h: TxHash| !list.take(i as int).contains(h)),
                    ),
                    expired@ == so_far + list.take(i as int),
                decreases list.len() - i,
            {
                let hash = bucket.entries[i].0;
                self.tx_to_expiry.remove(&hash);
                expired.push(hash);
                proof {
                    let a = list.take(i as int);
                    let b = list.take(i + 1);
                    assert(b =~= a.push(hash));
                    assert forall|h: TxHash| #[trigger] b.contains(h) <==> a.contains(h) || h
                        == hash by {
                        if a.contains(h) {
                            let j = choose|j: int| 0 <= j < a.len() && a[j] == h;
                            assert(b[j] == h);
                        }
                        assert(b[i as int] == hash);
                        if b.contains(h) {
                            let j = choose|j: int| 0 <= j < b.len() && b[j] == h;
                            if j < i {
                                assert(a[j] == h);
                            }
                        }
                    }
                    assert(self.tx_to_expiry@ =~= by_hash.restrict(
                        Set::new(|h: TxHash| !b.contains(h)),
                    ));
                }
                i = i + 1;
            }
            proof {
                assert(list.take(i as int) =~= list);
                let ghost after = gone.insert(key);
                assert forall|h: TxHash| #[trigger] in_bucket(e, after, h) <==> in_bucket(
                    e,
                    gone,
                    h,
                ) || list.contains(h) by {
                    if in_bucket(e, gone, h) {
                        let t = choose|t: u64|
                            gone.contains(t) && #[trigger] e.buckets.contains_key(t)
                                && e.buckets[t].contains(h);
                        assert(after.contains(t) && e.buckets.contains_key(t));
                    }
                    if list.contains(h) {
                        assert(bucket@.contains_key(h));
                        assert(after.contains(key) && e.buckets.contains_key(key)
                            && e.buckets[key].contains(h));
                    }
                    if in_bucket(e, after, h) {
                        let t = choose|t: u64|
                            after.contains(t) && #[trigger] e.buckets.contains_key(t)
                                && e.buckets[t].contains(h);
                        if t == key {
                            assert(bucket@.contains_key(h));
                        }
                    }
                }
                assert forall|h: TxHash| #[trigger] expired@.contains(h) <==> in_bucket(
                    e,
                    after,
                    h,
                ) by {
                    if so_far.contains(h) {
                        let j = choose|j: int| 0 <= j < so_far.len() && so_far[j] == h;
                        assert(expired@[j] == h);
                    }
                    if list.contains(h) {
                        let j = choose|j: int| 0 <= j < list.len() && list[j] == h;
                        assert(expired@[so_far.len() + j] == h);
                    }
                    if expired@.contains(h) {
                        let j = choose|j: int| 0 <= j < expired@.len() && expired@[j] == h;
                        if j < so_far.len() {
                            assert(so_far[j] == h);
                        } else {
                            assert(list[j - so_far.len()] == h);
                        }
                    }
                }
                let target = without_buckets(e, after);
                assert(self.expiries().buckets =~= target.buckets) by {
                    assert(sets(self.expiry_map@) =~= before.buckets.remove(key));
                    assert(before.buckets =~= e.buckets.restrict(
                        Set::new(|t: u64| !gone.contains(t)),
                    ));
                }
                assert(self.expiries().by_hash =~= target.by_hash) by {
                    assert(before.by_hash == by_hash);
                    assert(list.take(i as int) == list);
                }
                gone = after;
            }
        }
        proof {
            let at = self.expiry_map.entries@;
            assert forall|t: u64| #[trigger] self.expiry_map@.contains_key(t) implies t
                > tip_timestamp by {
                let i = lemma_key_has_entry(at, t);
                if i > 0 {
                    assert(at[0].0.ord() < at[i].0.ord());
                }
            }
            assert forall|t: u64| #[trigger] e.buckets.contains_key(t) implies gone.contains(t) == (
            t <= tip_timestamp) by {
                if !gone.contains(t) {
                    assert(without_buckets(e, gone).buckets.contains_key(t));
                    assert(self.expiry_map@.contains_key(t));
                }
            }
            assert forall|h: TxHash| #[trigger] in_bucket(e, gone, h) <==> due(
                e,
                tip_timestamp,
                h,
            ) by {
                if in_bucket(e, gone, h) {
                    let t = choose|t: u64|
                        gone.contains(t) && #[trigger] e.buckets.contains_key(t)
                            && e.buckets[t].contains(h);
                    assert(e.buckets.contains_key(t));
                }
                if due(e, tip_timestamp, h) {
                    let t = choose|t: u64|
                        t <= tip_timestamp && #[trigger] e.buckets.contains_key(t)
                            && e.buckets[t].contains(h);
                    assert(gone.contains(t) && e.buckets.contains_key(t));
                }
            }
            assert(self.expiries() =~= without_due(e, tip_timestamp));
            lemma_without_due_inv(e, tip_timestamp);
            assert(expired@ =~= whole);
            if buckets_exact(e) {
                law_drain_keeps_exact(e, tip_timestamp);
                assert forall|h: TxHash| #[trigger] expired@.contains(h) <==> e.by_hash.contains_key(
                    h,
                ) && e.by_hash[h] <= tip_timestamp by {
                    law_due_is_expired(e, tip_timestamp, h);
                }
            }
        }
        expired
    }
}

/// A transaction is in one of the buckets.
spec fn in_bucket(e: Expiries, buckets: Set<u64>, hash: TxHash) -> bool {
    exists|t: u64|
        buckets.contains(t) && #[trigger] e.buckets.contains_key(t) && e.buckets[t].contains(hash)
}

/// What is tracked after buckets were removed with all that is in them.
spec fn without_buckets(e: Expiries, buckets: Set<u64>) -> Expiries {
    Expiries {
        buckets: e.buckets.restrict(Set::new(|t: u64| !buckets.contains(t))),
        by_hash: e.by_hash.restrict(Set::new(|h: TxHash| !in_bucket(e, buckets, h))),
    }
}

/// The transactions in the buckets up to a timestamp, bucket by bucket.
pub open spec fn due_list(entries: Seq<(u64, SortedSet<TxHash>)>, timestamp: u64) -> Seq<TxHash>
    decreases entries.len(),
{
    if entries.len() == 0 || entries[0].0 > timestamp {
        Seq::empty()
    } else {
        member_list(entries[0].1.entries@) + due_list(entries.drop_first(), timestamp)
    }
}

impl Default for TempoPoolState {
    fn default() -> (r: Self)
        ensures
            r.wf(),
            r.expiries() == (Expiries { buckets: Map::empty(), by_hash: Map::empty() }),
            buckets_exact(r.expiries()),
            r.pending_staleness.seen_pending() == Set::<TxHash>::empty(),
            r.pending_staleness.last_snapshot_time is None,
            r.pending_staleness.interval_secs == DEFAULT_PENDING_STALENESS_INTERVAL,
    {
        TempoPoolState::new()
    }
}

/// Tracks pending transactions across snapshots to detect stale transactions.
///
/// Every interval a snapshot of the pending transactions is taken. Those that were in the previous
/// one already have been pending for at least one full interval, and are stale.
#[derive(Debug)]
pub struct PendingStalenessTracker {
    /// Previous snapshot of pending transaction hashes.
    pub previous_pending: SortedSet<TxHash>,
    /// Timestamp of the last snapshot.
    pub last_snapshot_time: Option<u64>,
    /// Interval in seconds between staleness checks.
    pub interval_secs: u64,
}

impl PendingStalenessTracker {
    /// The transactions of the previous snapshot.
    pub open spec fn seen_pending(&self) -> Set<TxHash> {
        self.previous_pending@.dom()
    }

    /// The snapshot is in order.
    pub open spec fn wf(&self) -> bool {
        self.previous_pending.wf()
    }

    /// Creates a new tracker with the given check interval.
    pub fn new(interval_secs: u64) -> (r: Self)
        ensures
            r.wf(),
            r.seen_pending() == Set::<TxHash>::empty(),
            r.last_snapshot_time is None,
            r.interval_secs == interval_secs,
    {
        let r = PendingStalenessTracker {
            previous_pending: SortedMap::new(),
            last_snapshot_time: None,
            interval_secs,
        };
        assert(r.seen_pending() =~= Set::empty());
        r
    }

    /// There was no snapshot yet, or the last one is at least an interval ago.
    pub open spec fn is_due(&self, now: u64) -> bool {
        match self.last_snapshot_time {
            Some(last) => (if last <= now {
                now - last
            } else {
                0
            }) >= self.interval_secs,
            None => true,
        }
    }

    /// Returns true if the staleness check interval has elapsed and a snapshot should be taken.
    pub fn should_check(&self, now: u64) -> (r: bool)
        ensures
            r == self.is_due(now),
    {
        match self.last_snapshot_time {
            Some(last) => now.saturating_sub(last) >= self.interval_secs,
            None => true,
        }
    }

    /// Checks for stale transactions and updates the snapshot.
    ///
    /// Returns transactions that have been pending across two consecutive snapshots. The others are
    /// kept for the next one.
    pub fn check_and_update(&mut self, current_pending: SortedSet<TxHash>, now: u64) -> (r: Vec<
        TxHash,
    >)
        requires
            old(self).wf(),
            current_pending.wf(),
        ensures
            final(self).wf(),
            final(self).seen_pending() == current_pending@.dom().difference(
                old(self).seen_pending(),
            ),
            final(self).last_snapshot_time == Some(now),
            final(self).interval_secs == old(self).interval_secs,
            r@.no_duplicates(),
            forall|h: TxHash| #[trigger]
                r@.contains(h) <==> current_pending@.contains_key(h) && old(
                    self,
                ).seen_pending().contains(h),
    {
        let ghost previous = self.seen_pending();
        let ghost list = member_list(current_pending.entries@);
        let mut stale: Vec<TxHash> = Vec::new();
        let mut next: SortedSet<TxHash> = SortedMap::new();
        let mut i: usize = 0;
        proof {
            lemma_member_list(current_pending);
            assert(next@.dom() =~= Set::empty());
        }
        while i < current_pending.entries.len()
            invariant
                self.wf(),
                self.seen_pending() == previous,
                self.interval_secs == old(self).interval_secs,
                next.wf(),
                list == member_list(current_pending.entries@),
                list.no_duplicates(),
                i <= list.len(),
                stale@.no_duplicates(),
                forall|h: TxHash| #[trigger]
                    stale@.contains(h) <==> list.take(i as int).contains(h) && previous.contains(h),
                forall|h: TxHash| #[trigger]
                    next@.contains_key(h) <==> list.take(i as int).contains(h)
                        && !previous.contains(h),
            decreases list.len() - i,
        {
            let hash = current_pending.entries[i].0;
            let ghost a = list.take(i as int);
            let ghost b = list.take(i + 1);
            let ghost stale_before = stale@;
            proof {
                assert(b =~= a.push(hash));
                assert(hash == list[i as int]);
                assert(!a.contains(hash)) by {
                    if a.contains(hash) {
                        let j = choose|j: int| 0 <= j < a.len() && a[j] == hash;
                        assert(list[j] == list[i as int]);
                    }
                }
                lemma_push_contains(a, hash);
                lemma_push_contains(stale_before, hash);
            }
            if self.previous_pending.contains_key(&hash) {
                stale.push(hash);
                proof {
                    assert(stale@ =~= stale_before.push(hash));
                    assert(!stale_before.contains(hash));
                    lemma_push_no_duplicates(stale_before, hash);
                }
            } else {
                next.insert(hash, ());
            }
            i = i + 1;
        }
        proof {
            assert(list.take(i as int) =~= list);
            assert(next@.dom() =~= current_pending@.dom().difference(previous));
        }
        self.previous_pending = next;
        self.last_snapshot_time = Some(now);
        stale
    }
}

proof fn lemma_push_contains<A>(s: Seq<A>, x: A)
    ensures
        forall|h: A| #[trigger] s.push(x).contains(h) <==> s.contains(h) || h == x,
{
    let b = s.push(x);
    assert forall|h: A| #[trigger] b.contains(h) <==> s.contains(h) || h == x by {
        if s.contains(h) {
            let j = choose|j: int| 0 <= j < s.len() && s[j] == h;
            assert(b[j] == h);
        }
        assert(b[s.len() as int] == x);
        if b.contains(h) {
            let j = choose|j: int| 0 <= j < b.len() && b[j] == h;
            if j < s.len() {
                assert(s[j] == h);
            }
        }
    }
}

proof fn lemma_push_no_duplicates<A>(s: Seq<A>, x: A)
    requires
        s.no_duplicates(),
        !s.contains(x),
    ensures
        s.push(x).no_duplicates(),
{
    let b = s.push(x);
    assert forall|i: int, j: int| 0 <= i < b.len() && 0 <= j < b.len() && i != j implies b[i]
        != b[j] by {
        if i == s.len() {
            assert(s[j] != x);
        } else if j == s.len() {
            assert(s[i] != x);
        }
    }
}

impl Default for PendingStalenessTracker {
    fn default() -> (r: Self)
        ensures
            r.wf(),
            r.seen_pending() == Set::<TxHash>::empty(),
            r.last_snapshot_time is None,
            r.interval_secs == DEFAULT_PENDING_STALENESS_INTERVAL,
    {
        PendingStalenessTracker::new(DEFAULT_PENDING_STALENESS_INTERVAL)
    }
}

} // verus!
