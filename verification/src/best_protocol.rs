//! An iterator over transactions that are already in order, such as those that the pool for
//! protocol nonces hands out.
use crate::best_transactions::{BestTransaction, BestTransactions};
use crate::error::InvalidPoolTransactionError;
use crate::primitives::Address;
use crate::transaction::ValidPoolTransaction;
use vstd::prelude::*;

verus! {

/// Transactions in the order in which they are yielded.
#[derive(Debug)]
pub struct ProtocolBestTransactions {
    /// The transactions still to come, best first.
    pub queue: Vec<BestTransaction>,
    /// Whether none can be added any more.
    pub closed: bool,
}

/// What such an iterator holds.
#[verifier::ext_equal]
pub struct QueueState {
    /// The transactions still to come, best first.
    pub queue: Seq<BestTransaction>,
    /// Whether none can be added any more.
    pub closed: bool,
}

/// The transactions of all senders but one, in the same order.
pub open spec fn without_sender(queue: Seq<BestTransaction>, sender: Address) -> Seq<
    BestTransaction,
>
    decreases queue.len(),
{
    if queue.len() == 0 {
        Seq::empty()
    } else if queue.last().transaction.inner.sender == sender {
        without_sender(queue.drop_last(), sender)
    } else {
        without_sender(queue.drop_last(), sender).push(queue.last())
    }
}

/// Leaving out a sender adds no transaction, and none of the sender is left.
pub proof fn law_sender_is_left_out(queue: Seq<BestTransaction>, sender: Address)
    ensures
        without_sender(queue, sender).len() <= queue.len(),
        forall|i: int|
            0 <= i < without_sender(queue, sender).len() ==> (#[trigger] without_sender(
                queue,
                sender,
            )[i]).transaction.inner.sender != sender,
    decreases queue.len(),
{
    if queue.len() > 0 {
        law_sender_is_left_out(queue.drop_last(), sender);
    }
}

impl ProtocolBestTransactions {
    /// Creates an iterator over transactions that are in order, best first.
    pub fn new(queue: Vec<BestTransaction>) -> (r: Self)
        ensures
            r.state() == (QueueState { queue: queue@, closed: false }),
    {
        ProtocolBestTransactions { queue, closed: false }
    }

    /// Adds a transaction that comes after all others, unless the iterator takes up no more.
    pub fn push(&mut self, transaction: BestTransaction)
        ensures
            final(self).state() == (if old(self).closed {
                old(self).state()
            } else {
                QueueState { queue: old(self).queue@.push(transaction), closed: false }
            }),
    {
        if !self.closed {
            self.queue.push(transaction);
        }
    }
}

impl BestTransactions for ProtocolBestTransactions {
    type State = QueueState;

    open spec fn state(&self) -> QueueState {
        QueueState { queue: self.queue@, closed: self.closed }
    }

    open spec fn inv(&self) -> bool {
        true
    }

    open spec fn sound(s: QueueState) -> bool {
        true
    }

    open spec fn stepped(s: QueueState) -> (QueueState, Option<BestTransaction>) {
        if s.queue.len() > 0 {
            (QueueState { queue: s.queue.remove(0), ..s }, Some(s.queue[0]))
        } else {
            (s, None)
        }
    }

    /// Nothing of the sender of the transaction is yielded any more.
    open spec fn after_invalid(
        s: QueueState,
        transaction: ValidPoolTransaction,
        kind: InvalidPoolTransactionError,
    ) -> QueueState {
        QueueState { queue: without_sender(s.queue, transaction.transaction.inner.sender), ..s }
    }

    open spec fn after_no_updates(s: QueueState) -> QueueState {
        QueueState { closed: true, ..s }
    }

    /// There are no blob transactions in this pool.
    open spec fn after_skip_blobs(s: QueueState, skip_blobs: bool) -> QueueState {
        s
    }

    /// At least none, and at most those still to come once no others can be added.
    open spec fn hint(s: QueueState) -> (usize, Option<usize>) {
        (
            0,
            if s.closed {
                Some(s.queue.len() as usize)
            } else {
                None
            },
        )
    }

    open spec fn left(s: QueueState) -> (nat, nat) {
        (0, s.queue.len())
    }

    proof fn inv_is_sound(&self) {
    }

    proof fn step_takes_one(s: QueueState) {
    }

    proof fn invalid_adds_none(
        s: QueueState,
        transaction: ValidPoolTransaction,
        kind: InvalidPoolTransactionError,
    ) {
        law_sender_is_left_out(s.queue, transaction.transaction.inner.sender);
    }

    fn next(&mut self) -> (r: Option<BestTransaction>) {
        if self.queue.len() > 0 {
            Some(self.queue.remove(0))
        } else {
            None
        }
    }

    fn size_hint(&self) -> (r: (usize, Option<usize>)) {
        (
            0,
            if self.closed {
                Some(self.queue.len())
            } else {
                None
            },
        )
    }

    fn mark_invalid(
        &mut self,
        transaction: &ValidPoolTransaction,
        kind: InvalidPoolTransactionError,
    ) {
        let sender = transaction.sender();
        let mut queue: Vec<BestTransaction> = Vec::new();
        std::mem::swap(&mut queue, &mut self.queue);
        let ghost all = queue@;
        let mut kept: Vec<BestTransaction> = Vec::new();
        let total: usize = queue.len();
        let mut done: usize = 0;
        assert(all.take(0) =~= Seq::empty());
        assert(all.skip(0) =~= all);
        while queue.len() > 0
            invariant
                total == all.len(),
                done + queue@.len() == total,
                queue@ == all.skip(done as int),
                kept@ == without_sender(all.take(done as int), sender),
            decreases queue@.len(),
        {
            let ghost rest = queue@;
            let tx = queue.remove(0);
            proof {
                assert(tx == all[done as int]);
                assert(rest.remove(0) =~= all.skip(done + 1));
                assert(all.take(done + 1).drop_last() =~= all.take(done as int));
                assert(all.take(done + 1).last() == tx);
            }
            if tx.sender() != sender {
                kept.push(tx);
            }
            done = done + 1;
        }
        assert(all.take(done as int) =~= all);
        self.queue = kept;
    }

    fn no_updates(&mut self) {
        self.closed = true;
    }

    fn set_skip_blobs(&mut self, skip_blobs: bool) {
    }
}

/// Leaving out a sender leaves in all transactions of the others, in their order.
pub proof fn law_others_are_left_in(queue: Seq<BestTransaction>, sender: Address)
    ensures
        without_sender(queue, sender) == queue.filter(
            |tx: BestTransaction| tx.transaction.inner.sender != sender,
        ),
    decreases queue.len(),
{
    reveal(Seq::filter);
    if queue.len() > 0 {
        law_others_are_left_in(queue.drop_last(), sender);
    }
}

/// The iterator yields its transactions in the order in which they were given.
pub proof fn law_queue_is_yielded_in_order(s: QueueState, n: nat)
    requires
        n < s.queue.len(),
    ensures
        ProtocolBestTransactions::stepped(after_yielding(s, n)).1 == Some(s.queue[n as int]),
    decreases n,
{
    lemma_after_yielding(s, n);
}

/// What the iterator holds after `n` steps.
pub open spec fn after_yielding(s: QueueState, n: nat) -> QueueState
    decreases n,
{
    if n == 0 {
        s
    } else {
        ProtocolBestTransactions::stepped(after_yielding(s, (n - 1) as nat)).0
    }
}

proof fn lemma_after_yielding(s: QueueState, n: nat)
    requires
        n <= s.queue.len(),
    ensures
        after_yielding(s, n).queue =~= s.queue.skip(n as int),
    decreases n,
{
    if n > 0 {
        lemma_after_yielding(s, (n - 1) as nat);
    }
}

} // verus!
