//! Iterating over the executable transactions of the pool, best first.
use crate::ids::{tx_id, AA2dTransactionId, AASequenceId};
use crate::ordered::{ascending, entry_map, lemma_entry_in_map, SortedMap};
use crate::counting::lemma_take_step;
use crate::pending::{PendingTransaction, Priority};
use crate::pool::AA2dPool;
use crate::pool_state::ById;
use crate::transaction::ValidPoolTransaction;
use std::sync::Arc;
use vstd::prelude::*;

verus! {

/// Maximum number of new transactions to take up before each step.
pub const MAX_NEW_TRANSACTIONS_PER_BATCH: usize = 16;

/// What the iterator holds.
#[verifier::ext_equal]
pub struct BestState {
    /// The transactions that can be executed next, the best one last.
    pub independent: Seq<PendingTransaction>,
    /// All transactions with sequential nonces that can be executed in their turn.
    pub by_id: Map<AA2dTransactionId, PendingTransaction>,
    /// The sequences of which a transaction turned out to be invalid.
    pub invalid: Set<AASequenceId>,
    /// The transactions that became pending since, unless the iterator no longer takes them up.
    pub feed: Option<Seq<PendingTransaction>>,
    /// The priority of the transaction that was yielded last, while the feed is open.
    pub last_priority: Option<Priority>,
}

/// Each transaction is better than those before it.
pub open spec fn ranked(txs: Seq<PendingTransaction>) -> bool {
    forall|i: int, j: int|
        #![trigger txs[i], txs[j]]
        0 <= i < j < txs.len() ==> txs[j].better(txs[i])
}

/// Puts a transaction in its place among ranked ones. One of the same priority and submission
/// number that is already there stays.
pub open spec fn with_ranked(txs: Seq<PendingTransaction>, tx: PendingTransaction) -> Seq<
    PendingTransaction,
>
    decreases txs.len(),
{
    if txs.len() == 0 {
        seq![tx]
    } else if tx.better(txs.last()) {
        txs.push(tx)
    } else if tx.ties(txs.last()) {
        txs
    } else {
        with_ranked(txs.drop_last(), tx).push(txs.last())
    }
}

/// Puts transactions in their place among ranked ones, one after the other.
pub open spec fn with_all_ranked(
    txs: Seq<PendingTransaction>,
    more: Seq<PendingTransaction>,
) -> Seq<PendingTransaction>
    decreases more.len(),
{
    if more.len() == 0 {
        txs
    } else {
        with_ranked(with_all_ranked(txs, more.drop_last()), more.last())
    }
}

/// Putting a transaction in its place keeps the ranking, and adds it unless one of the same
/// priority and submission number is there.
pub proof fn lemma_with_ranked(txs: Seq<PendingTransaction>, tx: PendingTransaction)
    requires
        ranked(txs),
    ensures
        ranked(with_ranked(txs, tx)),
        txs.len() <= with_ranked(txs, tx).len() <= txs.len() + 1,
        forall|i: int|
            0 <= i < with_ranked(txs, tx).len() ==> #[trigger] with_ranked(txs, tx)[i] == tx
                || txs.contains(with_ranked(txs, tx)[i]),
        forall|i: int|
            0 <= i < txs.len() ==> with_ranked(txs, tx).contains(#[trigger] txs[i]),
        with_ranked(txs, tx).contains(tx) || exists|i: int|
            0 <= i < txs.len() && tx.ties(#[trigger] txs[i]),
    decreases txs.len(),
{
    let r = with_ranked(txs, tx);
    if txs.len() == 0 {
        assert(r[0] == tx);
    } else if tx.better(txs.last()) {
        assert(r[txs.len() as int] == tx);
        assert forall|i: int| 0 <= i < txs.len() implies r.contains(#[trigger] txs[i]) by {
            assert(r[i] == txs[i]);
        }
        assert forall|i: int, j: int|
            #![trigger r[i], r[j]]
            0 <= i < j < r.len() implies r[j].better(r[i]) by {
            if j == txs.len() && i < txs.len() - 1 {
                assert(txs[txs.len() - 1].better(txs[i]));
            }
        }
    } else if tx.ties(txs.last()) {
        assert(txs[txs.len() - 1] == txs.last());
    } else {
        let front = txs.drop_last();
        let rest = with_ranked(front, tx);
        assert forall|i: int, j: int|
            #![trigger front[i], front[j]]
            0 <= i < j < front.len() implies front[j].better(front[i]) by {
            assert(txs[j].better(txs[i]));
        }
        lemma_with_ranked(front, tx);
        assert(r == rest.push(txs.last()));
        assert forall|i: int, j: int|
            #![trigger r[i], r[j]]
            0 <= i < j < r.len() implies r[j].better(r[i]) by {
            if j == rest.len() {
                assert(r[i] == rest[i]);
                if rest[i] != tx {
                    let k = choose|k: int| 0 <= k < front.len() && front[k] == rest[i];
                    assert(txs[txs.len() - 1].better(txs[k]));
                }
            } else {
                assert(r[i] == rest[i] && r[j] == rest[j]);
            }
        }
        assert forall|i: int| 0 <= i < r.len() implies #[trigger] r[i] == tx || txs.contains(
            r[i],
        ) by {
            if i < rest.len() {
                assert(r[i] == rest[i]);
                if rest[i] != tx {
                    let k = choose|k: int| 0 <= k < front.len() && front[k] == rest[i];
                    assert(txs[k] == r[i]);
                }
            } else {
                assert(txs[txs.len() - 1] == r[i]);
            }
        }
        assert forall|i: int| 0 <= i < txs.len() implies r.contains(#[trigger] txs[i]) by {
            if i < front.len() {
                assert(front[i] == txs[i]);
                let k = choose|k: int| 0 <= k < rest.len() && rest[k] == front[i];
                assert(r[k] == txs[i]);
            } else {
                assert(r[rest.len() as int] == txs[i]);
            }
        }
        if rest.contains(tx) {
            let k = choose|k: int| 0 <= k < rest.len() && rest[k] == tx;
            assert(r[k] == tx);
        } else {
            let k = choose|k: int| 0 <= k < front.len() && tx.ties(#[trigger] front[k]);
            assert(tx.ties(txs[k]));
        }
    }
}

/// A transaction may come next, as its priority is not above that of the last one yielded.
pub open spec fn may_process(b: BestState, tx: PendingTransaction) -> bool {
    match b.last_priority {
        Some(last) => tx.priority.rank() <= last.rank(),
        None => true,
    }
}

/// The iterator after it took up a transaction that became pending.
///
/// A transaction of a higher priority than the last one yielded is only remembered for the
/// transactions before it. Otherwise it can be executed next if it has an expiring nonce, or if
/// the transaction before it in its sequence is not waiting.
pub open spec fn taken_up(b: BestState, tx: PendingTransaction) -> BestState {
    let process = may_process(b, tx);
    if tx.transaction.transaction.spec_is_expiring_nonce() {
        if process {
            BestState { independent: with_ranked(b.independent, tx), ..b }
        } else {
            b
        }
    } else {
        match tx.transaction.transaction.spec_id() {
            Some(id) => {
                let first = id.nonce == 0 || !b.by_id.contains_key(
                    tx_id(id.seq_id, (id.nonce - 1) as u64),
                );
                BestState {
                    independent: if process && first {
                        with_ranked(b.independent, tx)
                    } else {
                        b.independent
                    },
                    by_id: b.by_id.insert(id, tx),
                    ..b
                }
            },
            None => b,
        }
    }
}

/// The iterator after it took up to `n` transactions from its feed.
pub open spec fn fed(b: BestState, n: nat) -> BestState
    decreases n,
{
    if n == 0 {
        b
    } else {
        match b.feed {
            Some(feed) => if feed.len() == 0 {
                b
            } else {
                fed(
                    taken_up((BestState { feed: Some(feed.drop_first()), ..b }), feed[0]),
                    (n - 1) as nat,
                )
            },
            None => b,
        }
    }
}

/// How many transactions are still to be looked at.
pub open spec fn backlog(b: BestState) -> nat {
    b.independent.len() + match b.feed {
        Some(feed) => feed.len(),
        None => 0,
    }
}

proof fn lemma_with_ranked_len(txs: Seq<PendingTransaction>, tx: PendingTransaction)
    ensures
        txs.len() <= with_ranked(txs, tx).len() <= txs.len() + 1,
    decreases txs.len(),
{
    if txs.len() > 0 {
        lemma_with_ranked_len(txs.drop_last(), tx);
    }
}

/// Taking up transactions never adds to what is still to be looked at.
pub proof fn lemma_fed_backlog(b: BestState, n: nat)
    ensures
        backlog(fed(b, n)) <= backlog(b),
        fed(b, n).feed is Some == b.feed is Some,
    decreases n,
{
    if n > 0 && b.feed is Some && b.feed->0.len() > 0 {
        let feed = b.feed->0;
        let c = BestState { feed: Some(feed.drop_first()), ..b };
        lemma_with_ranked_len(b.independent, feed[0]);
        lemma_fed_backlog(taken_up(c, feed[0]), (n - 1) as nat);
    }
}

/// The iterator after it took up new transactions and the best one left it.
pub open spec fn popped(b: BestState) -> BestState {
    let c = fed(b, MAX_NEW_TRANSACTIONS_PER_BATCH as nat);
    let best = c.independent.last();
    BestState {
        independent: c.independent.drop_last(),
        by_id: match best.transaction.transaction.spec_id() {
            Some(id) => c.by_id.remove(id),
            None => c.by_id,
        },
        ..c
    }
}

/// The transaction that leaves the iterator next, if any.
pub open spec fn candidate(b: BestState) -> Option<PendingTransaction> {
    let c = fed(b, MAX_NEW_TRANSACTIONS_PER_BATCH as nat);
    if c.independent.len() == 0 {
        None
    } else {
        Some(c.independent.last())
    }
}

/// The sequence of a transaction.
pub open spec fn sequence_of(tx: PendingTransaction) -> AASequenceId {
    tx.transaction.transaction.spec_id()->0.seq_id
}

/// The iterator after it yielded a transaction that just left it: what follows it in its sequence
/// can be executed next.
pub open spec fn unlocked(b: BestState, best: PendingTransaction) -> BestState {
    let id = best.transaction.transaction.spec_id()->0;
    let next = tx_id(id.seq_id, (if id.nonce < u64::MAX { id.nonce + 1 } else { u64::MAX as int })
        as u64);
    BestState {
        independent: if !best.transaction.transaction.spec_is_expiring_nonce()
            && b.by_id.contains_key(next) {
            with_ranked(b.independent, b.by_id[next])
        } else {
            b.independent
        },
        last_priority: if b.feed is Some {
            Some(best.priority)
        } else {
            b.last_priority
        },
        ..b
    }
}

/// The iterator after its next step, and what the step yields: the best transaction whose sequence
/// is not invalid.
pub open spec fn advanced(b: BestState) -> (BestState, Option<PendingTransaction>)
    decreases backlog(b),
{
    match candidate(b) {
        Some(best) => {
            let c = popped(b);
            if b.invalid.contains(sequence_of(best)) {
                proof {
                    lemma_fed_backlog(b, MAX_NEW_TRANSACTIONS_PER_BATCH as nat);
                }
                advanced(c)
            } else {
                (unlocked(c, best), Some(best))
            }
        },
        None => (fed(b, MAX_NEW_TRANSACTIONS_PER_BATCH as nat), None),
    }
}

/// An iterator over the executable transactions of the pool at the time it was made, and over
/// those that it is told became pending since.
#[derive(Debug)]
pub struct BestAA2dTransactions {
    /// The transactions that can be executed next, the best one last.
    pub independent: Vec<PendingTransaction>,
    /// All transactions with sequential nonces that can be executed in their turn.
    pub by_id: SortedMap<AA2dTransactionId, PendingTransaction>,
    /// The sequences of which a transaction turned out to be invalid.
    pub invalid: SortedMap<AASequenceId, ()>,
    /// The transactions that became pending since, unless the iterator no longer takes them up.
    pub feed: Option<Vec<PendingTransaction>>,
    /// The priority of the transaction that was yielded last, while the feed is open.
    pub last_priority: Option<Priority>,
}

impl View for BestAA2dTransactions {
    type V = BestState;

    open spec fn view(&self) -> BestState {
        BestState {
            independent: self.independent@,
            by_id: self.by_id@,
            invalid: self.invalid@.dom(),
            feed: match self.feed {
                Some(feed) => Some(feed@),
                None => None,
            },
            last_priority: self.last_priority,
        }
    }
}

/// All transactions are account-abstraction transactions.
pub open spec fn all_aa(txs: Seq<PendingTransaction>) -> bool {
    forall|i: int| 0 <= i < txs.len() ==> (#[trigger] txs[i]).transaction.transaction.inner.aa is Some
}

/// What always holds of the iterator.
pub open spec fn best_inv(b: BestState) -> bool {
    &&& ranked(b.independent)
    &&& all_aa(b.independent)
    &&& b.feed is Some ==> all_aa(b.feed->0)
    &&& forall|id: AA2dTransactionId| #[trigger]
        b.by_id.contains_key(id) ==> b.by_id[id].transaction.transaction.spec_id() == Some(id)
}

/// Inserting by rank keeps a list of account-abstraction transactions ranked.
pub proof fn lemma_with_ranked_aa(txs: Seq<PendingTransaction>, tx: PendingTransaction)
    requires
        ranked(txs),
        all_aa(txs),
        tx.transaction.transaction.inner.aa is Some,
    ensures
        ranked(with_ranked(txs, tx)),
        all_aa(with_ranked(txs, tx)),
{
    lemma_with_ranked(txs, tx);
    let r = with_ranked(txs, tx);
    assert forall|i: int| 0 <= i < r.len() implies (
    #[trigger] r[i]).transaction.transaction.inner.aa is Some by {
        if r[i] != tx {
            assert(txs.contains(r[i]));
        }
    }
}

/// Puts a transaction in its place among ranked ones.
fn insert_ranked(txs: &mut Vec<PendingTransaction>, tx: PendingTransaction)
    ensures
        final(txs)@ == with_ranked(old(txs)@, tx),
{
    let ghost before = txs@;
    let mut i: usize = txs.len();
    assert(before.take(i as int) =~= before);
    assert(with_ranked(before, tx) =~= with_ranked(before.take(i as int), tx) + before.skip(
        i as int,
    ));
    while i > 0 && !tx.is_better(&txs[i - 1])
        invariant
            i <= before.len(),
            txs@ == before,
            with_ranked(before, tx) == with_ranked(before.take(i as int), tx) + before.skip(
                i as int,
            ),
        decreases i,
    {
        let ghost head = before.take(i as int);
        if !txs[i - 1].is_better(&tx) {
            assert(before =~= head + before.skip(i as int));
            return ;
        }
        proof {
            assert(head.drop_last() =~= before.take(i - 1));
            assert(head.last() == before[i - 1]);
            assert(with_ranked(head, tx) + before.skip(i as int) =~= with_ranked(
                before.take(i - 1),
                tx,
            ) + before.skip(i - 1));
        }
        i = i - 1;
    }
    let ghost placed = tx;
    txs.insert(i, tx);
    assert(with_ranked(before.take(i as int), placed) =~= before.take(i as int).push(placed));
    assert(txs@ =~= with_ranked(before, placed));
}

/// The transactions that are pending, as the iterator keeps them.
pub open spec fn executable(by_id: ById) -> Map<AA2dTransactionId, PendingTransaction> {
    Map::new(
        |id: AA2dTransactionId| by_id.contains_key(id) && by_id[id].is_pending,
        |id: AA2dTransactionId| by_id[id].inner,
    )
}

/// The values of entries.
pub open spec fn values<K, V>(entries: Seq<(K, V)>) -> Seq<V> {
    entries.map_values(|e: (K, V)| e.1)
}

fn insert_all_ranked<K>(txs: &mut Vec<PendingTransaction>, map: &SortedMap<K, PendingTransaction>)
    requires
        ranked(old(txs)@),
        all_aa(old(txs)@),
        all_aa(values(map.entries@)),
    ensures
        final(txs)@ == with_all_ranked(old(txs)@, values(map.entries@)),
        ranked(final(txs)@),
        all_aa(final(txs)@),
{
    let ghost before = txs@;
    let ghost all = values(map.entries@);
    let mut i: usize = 0;
    assert(all.take(0) =~= Seq::empty());
    while i < map.entries.len()
        invariant
            all == values(map.entries@),
            all_aa(all),
            i <= map.entries@.len(),
            txs@ == with_all_ranked(before, all.take(i as int)),
            ranked(txs@),
            all_aa(txs@),
        decreases map.entries@.len() - i,
    {
        proof {
            assert(all.take(i + 1).drop_last() =~= all.take(i as int));
            assert(all.take(i + 1).last() == all[i as int]);
            lemma_with_ranked_aa(txs@, all[i as int]);
        }
        insert_ranked(txs, map.entries[i].1.clone());
        i = i + 1;
    }
    assert(all.take(i as int) =~= all);
}

impl AA2dPool {
    /// Returns the best executable transactions of this pool.
    pub fn best_transactions(&self) -> (r: BestAA2dTransactions)
        requires
            self.wf(),
        ensures
            r.wf(),
            r@ == (BestState {
                independent: with_all_ranked(
                    with_all_ranked(
                        Seq::empty(),
                        values(self.independent_transactions.entries@),
                    ),
                    values(self.expiring_nonce_txs.entries@),
                ),
                by_id: executable(self@.by_id),
                invalid: Set::empty(),
                feed: Some(Seq::empty()),
                last_priority: None,
            }),
    {
        proof {
            reveal(crate::pool_state::inv);
            let a = self.independent_transactions.entries@;
            assert forall|i: int| 0 <= i < values(a).len() implies (#[trigger] values(
                a,
            )[i]).transaction.transaction.inner.aa is Some by {
                lemma_entry_in_map(a, i);
                assert(self@.independent.contains_key(a[i].0));
            }
            let e = self.expiring_nonce_txs.entries@;
            assert forall|i: int| 0 <= i < values(e).len() implies (#[trigger] values(
                e,
            )[i]).transaction.transaction.inner.aa is Some by {
                lemma_entry_in_map(e, i);
                assert(self@.expiring.contains_key(e[i].0));
            }
        }
        let mut independent: Vec<PendingTransaction> = Vec::new();
        insert_all_ranked(&mut independent, &self.independent_transactions);
        insert_all_ranked(&mut independent, &self.expiring_nonce_txs);
        let mut by_id: SortedMap<AA2dTransactionId, PendingTransaction> = SortedMap::new();
        let ghost entries = self.by_id.entries@;
        let mut i: usize = 0;
        assert(entries.take(0) =~= Seq::empty());
        assert(executable(entry_map(entries.take(0))) =~= Map::empty());
        while i < self.by_id.entries.len()
            invariant
                entries == self.by_id.entries@,
                ascending(entries),
                by_id.wf(),
                i <= entries.len(),
                by_id@ == executable(entry_map(entries.take(i as int))),
            decreases entries.len() - i,
        {
            proof {
                lemma_take_step(entries, i as int);
            }
            if self.by_id.entries[i].1.is_pending() {
                by_id.insert(self.by_id.entries[i].0, self.by_id.entries[i].1.inner.clone());
            }
            i = i + 1;
            assert(by_id@ =~= executable(entry_map(entries.take(i as int))));
        }
        assert(entries.take(i as int) =~= entries);
        let r = BestAA2dTransactions {
            independent,
            by_id,
            invalid: SortedMap::new(),
            feed: Some(Vec::new()),
            last_priority: None,
        };
        proof {
            assert forall|id: AA2dTransactionId| #[trigger] r@.by_id.contains_key(
                id,
            ) implies r@.by_id[id].transaction.transaction.spec_id() == Some(id) by {
                assert(self@.by_id.contains_key(id));
                reveal(crate::pool_state::inv);
            }
            assert(r@.invalid =~= Set::empty());
            assert(r@.feed->0 =~= Seq::empty());
        }
        r
    }
}

impl BestAA2dTransactions {
    /// The maps are in order and the iterator holds account-abstraction transactions only.
    pub open spec fn wf(&self) -> bool {
        &&& self.by_id.wf()
        &&& self.invalid.wf()
        &&& best_inv(self@)
    }

    /// Tells the iterator of a transaction that became pending, if it still takes them up.
    pub fn receive(&mut self, tx: PendingTransaction)
        requires
            old(self).wf(),
            tx.transaction.transaction.inner.aa is Some,
        ensures
            final(self).wf(),
            final(self)@ == (BestState {
                feed: match old(self)@.feed {
                    Some(feed) => Some(feed.push(tx)),
                    None => None,
                },
                ..old(self)@
            }),
    {
        let ghost before = self@;
        let mut feed: Option<Vec<PendingTransaction>> = None;
        std::mem::swap(&mut feed, &mut self.feed);
        match feed {
            Some(mut queue) => {
                queue.push(tx);
                self.feed = Some(queue);
            },
            None => {},
        }
        assert(self@ =~= (BestState {
            feed: match before.feed {
                Some(feed) => Some(feed.push(tx)),
                None => None,
            },
            ..before
        }));
    }

    /// Takes the oldest transaction from the feed.
    fn try_recv(&mut self) -> (r: Option<PendingTransaction>)
        requires
            old(self).wf(),
        ensures
            final(self).wf(),
            match r {
                Some(tx) => {
                    &&& old(self)@.feed is Some
                    &&& old(self)@.feed->0.len() > 0
                    &&& tx == old(self)@.feed->0[0]
                    &&& final(self)@ == (BestState {
                        feed: Some(old(self)@.feed->0.drop_first()),
                        ..old(self)@
                    })
                },
                None => {
                    &&& old(self)@.feed is None || old(self)@.feed->0.len() == 0
                    &&& final(self)@ == old(self)@
                },
            },
    {
        let ghost before = self@;
        let mut feed: Option<Vec<PendingTransaction>> = None;
        std::mem::swap(&mut feed, &mut self.feed);
        match feed {
            Some(mut queue) => {
                if queue.len() == 0 {
                    self.feed = Some(queue);
                    assert(self@ =~= before);
                    None
                } else {
                    let tx = queue.remove(0);
                    proof {
                        assert(queue@ =~= before.feed->0.drop_first());
                        assert(all_aa(queue@)) by {
                            assert forall|i: int| 0 <= i < queue@.len() implies (
                            #[trigger] queue@[i]).transaction.transaction.inner.aa is Some by {
                                assert(before.feed->0[i + 1] == queue@[i]);
                            }
                        }
                    }
                    self.feed = Some(queue);
                    assert(self@ =~= (BestState {
                        feed: Some(before.feed->0.drop_first()),
                        ..before
                    }));
                    Some(tx)
                }
            },
            None => {
                assert(self@ =~= before);
                None
            },
        }
    }

    /// Takes up one transaction that became pending.
    fn take_up(&mut self, tx: PendingTransaction)
        requires
            old(self).wf(),
            tx.transaction.transaction.inner.aa is Some,
        ensures
            final(self).wf(),
            final(self)@ == taken_up(old(self)@, tx),
    {
        let ghost before = self@;
        proof {
            lemma_with_ranked_aa(self@.independent, tx);
        }
        let process: bool = match &self.last_priority {
            Some(last) => !last.below(&tx.priority),
            None => true,
        };
        if tx.transaction.transaction.is_expiring_nonce() {
            if process {
                insert_ranked(&mut self.independent, tx);
            }
        } else {
            match tx.transaction.transaction.aa_transaction_id() {
                Some(id) => {
                    let first: bool = id.nonce == 0 || !self.by_id.contains_key(
                        &AA2dTransactionId::new(id.seq_id, id.nonce - 1),
                    );
                    if process && first {
                        insert_ranked(&mut self.independent, tx.clone());
                    }
                    self.by_id.insert(id, tx);
                },
                None => {},
            }
        }
        assert(self@ =~= taken_up(before, tx));
    }

    /// Takes up new transactions from the feed, up to a limit.
    fn add_new_transactions(&mut self)
        requires
            old(self).wf(),
        ensures
            final(self).wf(),
            final(self)@ == fed(old(self)@, MAX_NEW_TRANSACTIONS_PER_BATCH as nat),
    {
        let ghost whole = fed(self@, MAX_NEW_TRANSACTIONS_PER_BATCH as nat);
        let mut left: usize = MAX_NEW_TRANSACTIONS_PER_BATCH;
        while left > 0
            invariant_except_break
                self.wf(),
                whole == fed(self@, left as nat),
            ensures
                self.wf(),
                whole == self@,
            decreases left,
        {
            match self.try_recv() {
                Some(tx) => {
                    self.take_up(tx);
                },
                None => {
                    break;
                },
            }
            left = left - 1;
        }
    }

    /// Returns the next best transaction with its priority.
    pub fn next_tx_and_priority(&mut self) -> (r: Option<(Arc<ValidPoolTransaction>, Priority)>)
        requires
            old(self).wf(),
        ensures
            final(self).wf(),
            final(self)@ == advanced(old(self)@).0,
            match advanced(old(self)@).1 {
                Some(tx) => r == Some((tx.transaction, tx.priority)),
                None => r is None,
            },
    {
        let ghost whole = advanced(self@);
        loop
            invariant
                self.wf(),
                whole == advanced(self@),
                whole == advanced(old(self)@),
            decreases backlog(self@),
        {
            let ghost before = self@;
            proof {
                lemma_fed_backlog(before, MAX_NEW_TRANSACTIONS_PER_BATCH as nat);
            }
            self.add_new_transactions();
            let ghost middle = self@;
            let best = match self.independent.pop() {
                Some(best) => best,
                None => {
                    assert(self@ =~= middle);
                    return None;
                },
            };
            assert(middle.independent.last() == best);
            assert(middle.independent[middle.independent.len() - 1] == best);
            assert(self.independent@ =~= middle.independent.drop_last());
            let id = match best.transaction.transaction.aa_transaction_id() {
                Some(id) => id,
                None => vstd::pervasive::unreached(),
            };
            self.by_id.remove(&id);
            assert(self@ =~= popped(before));
            proof {
                lemma_fed_same(before, MAX_NEW_TRANSACTIONS_PER_BATCH as nat);
            }
            if self.invalid.contains_key(&id.seq_id) {
                continue ;
            }
            let ghost at = self@;
            if !best.transaction.transaction.is_expiring_nonce() {
                match self.by_id.get(&id.unlocks()) {
                    Some(next) => {
                        let next = next.clone();
                        proof {
                            lemma_with_ranked_aa(self@.independent, next);
                        }
                        insert_ranked(&mut self.independent, next);
                    },
                    None => {},
                }
            }
            if self.feed.is_some() {
                self.last_priority = Some(best.priority);
            }
            assert(self@ =~= unlocked(at, best));
            return Some((best.transaction, best.priority));
        }
    }
}

/// The iterator after a transaction was marked as invalid.
pub open spec fn marked_invalid(b: BestState, tx: ValidPoolTransaction) -> BestState {
    match tx.transaction.spec_id() {
        Some(id) => if tx.transaction.spec_is_expiring_nonce() {
            b
        } else {
            BestState { invalid: b.invalid.insert(id.seq_id), ..b }
        },
        None => b,
    }
}

/// Taking up transactions changes neither the invalid sequences nor the last priority.
pub proof fn lemma_fed_same(b: BestState, n: nat)
    ensures
        fed(b, n).invalid == b.invalid,
        fed(b, n).last_priority == b.last_priority,
    decreases n,
{
    if n > 0 && b.feed is Some && b.feed->0.len() > 0 {
        let feed = b.feed->0;
        lemma_fed_same(
            taken_up((BestState { feed: Some(feed.drop_first()), ..b }), feed[0]),
            (n - 1) as nat,
        );
    }
}

} // verus!
