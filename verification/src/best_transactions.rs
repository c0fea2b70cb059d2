//! Iterators over transactions, best first.
use crate::best_2d::{advanced, marked_invalid, BestAA2dTransactions, BestState};
use crate::best_left::{best_sound, law_step_takes_one, upper, waiting};
use crate::error::InvalidPoolTransactionError;
use crate::ordered::lemma_entry_map_len;
use crate::transaction::ValidPoolTransaction;
use std::sync::Arc;
use vstd::prelude::*;

verus! {

/// A shared transaction of the pool.
pub type BestTransaction = Arc<ValidPoolTransaction>;

/// The pair `a` comes before `b` in lexicographic order.
pub open spec fn fewer(a: (nat, nat), b: (nat, nat)) -> bool {
    a.0 < b.0 || (a.0 == b.0 && a.1 < b.1)
}

/// An iterator that yields the transactions of a pool in the order in which they should be
/// included, and that is told which of them turned out to be invalid.
pub trait BestTransactions: Sized {
    /// What an iterator holds.
    type State;

    /// What this iterator holds.
    spec fn state(&self) -> Self::State;

    /// The iterator is well-formed.
    spec fn inv(&self) -> bool;

    /// A well-formed iterator may hold this.
    spec fn sound(s: Self::State) -> bool;

    /// What the iterator holds after its next step, and what the step yields.
    spec fn stepped(s: Self::State) -> (Self::State, Option<BestTransaction>);

    /// What the iterator holds after a transaction was marked as invalid.
    spec fn after_invalid(
        s: Self::State,
        transaction: ValidPoolTransaction,
        kind: InvalidPoolTransactionError,
    ) -> Self::State;

    /// What the iterator holds after it was told to take up no more transactions.
    spec fn after_no_updates(s: Self::State) -> Self::State;

    /// What the iterator holds after it was told whether to skip blob transactions.
    spec fn after_skip_blobs(s: Self::State, skip_blobs: bool) -> Self::State;

    /// The bounds that the iterator gives on the number of transactions still to come.
    spec fn hint(s: Self::State) -> (usize, Option<usize>);

    /// A measure of what is left to yield.
    spec fn left(s: Self::State) -> (nat, nat);

    /// What a well-formed iterator holds is sound.
    proof fn inv_is_sound(&self)
        requires
            self.inv(),
        ensures
            Self::sound(self.state()),
    ;

    /// A step leaves no more than there was, and less if it yields a transaction.
    proof fn step_takes_one(s: Self::State)
        requires
            Self::sound(s),
        ensures
            Self::sound(Self::stepped(s).0),
            !fewer(Self::left(s), Self::left(Self::stepped(s).0)),
            Self::stepped(s).1 is Some ==> fewer(
                Self::left(Self::stepped(s).0),
                Self::left(s),
            ),
    ;

    /// Marking a transaction as invalid leaves no more than there was.
    proof fn invalid_adds_none(
        s: Self::State,
        transaction: ValidPoolTransaction,
        kind: InvalidPoolTransactionError,
    )
        requires
            Self::sound(s),
        ensures
            Self::sound(Self::after_invalid(s, transaction, kind)),
            !fewer(Self::left(s), Self::left(Self::after_invalid(s, transaction, kind))),
    ;

    /// Returns the next best transaction.
    fn next(&mut self) -> (r: Option<BestTransaction>)
        requires
            old(self).inv(),
        ensures
            final(self).inv(),
            (final(self).state(), r) == Self::stepped(old(self).state()),
    ;

    /// Returns bounds on the number of transactions still to come.
    fn size_hint(&self) -> (r: (usize, Option<usize>))
        requires
            self.inv(),
        ensures
            r == Self::hint(self.state()),
    ;

    /// Marks a transaction as invalid: what depends on it is not yielded any more.
    fn mark_invalid(
        &mut self,
        transaction: &ValidPoolTransaction,
        kind: InvalidPoolTransactionError,
    )
        requires
            old(self).inv(),
        ensures
            final(self).inv(),
            final(self).state() == Self::after_invalid(old(self).state(), *transaction, kind),
    ;

    /// Takes up no more transactions from now on.
    fn no_updates(&mut self)
        requires
            old(self).inv(),
        ensures
            final(self).inv(),
            final(self).state() == Self::after_no_updates(old(self).state()),
    ;

    /// Skips blob transactions from now on, or no longer.
    fn set_skip_blobs(&mut self, skip_blobs: bool)
        requires
            old(self).inv(),
        ensures
            final(self).inv(),
            final(self).state() == Self::after_skip_blobs(old(self).state(), skip_blobs),
    ;
}

impl BestTransactions for BestAA2dTransactions {
    type State = BestState;

    open spec fn state(&self) -> BestState {
        self@
    }

    open spec fn inv(&self) -> bool {
        self.wf()
    }

    open spec fn sound(s: BestState) -> bool {
        best_sound(s)
    }

    open spec fn stepped(s: BestState) -> (BestState, Option<BestTransaction>) {
        (
            advanced(s).0,
            match advanced(s).1 {
                Some(tx) => Some(tx.transaction),
                None => None,
            },
        )
    }

    /// Nothing of the sequence of the transaction is yielded any more. A transaction with an
    /// expiring nonce stands alone and holds back no other.
    open spec fn after_invalid(
        s: BestState,
        transaction: ValidPoolTransaction,
        kind: InvalidPoolTransactionError,
    ) -> BestState {
        marked_invalid(s, transaction)
    }

    open spec fn after_no_updates(s: BestState) -> BestState {
        BestState { feed: None, last_priority: None, ..s }
    }

    /// There are no blob transactions in this pool.
    open spec fn after_skip_blobs(s: BestState, skip_blobs: bool) -> BestState {
        s
    }

    /// At least none, and at most so many once the iterator takes up no others.
    open spec fn hint(s: BestState) -> (usize, Option<usize>) {
        (
            0,
            if s.feed is None && upper(s) <= usize::MAX {
                Some(upper(s) as usize)
            } else {
                None
            },
        )
    }

    open spec fn left(s: BestState) -> (nat, nat) {
        (waiting(s), upper(s))
    }

    proof fn inv_is_sound(&self) {
        lemma_entry_map_len(self.by_id.entries@);
    }

    proof fn step_takes_one(s: BestState) {
        law_step_takes_one(s);
    }

    proof fn invalid_adds_none(
        s: BestState,
        transaction: ValidPoolTransaction,
        kind: InvalidPoolTransactionError,
    ) {
    }

    fn next(&mut self) -> (r: Option<BestTransaction>) {
        match self.next_tx_and_priority() {
            Some((tx, _)) => Some(tx),
            None => None,
        }
    }

    fn size_hint(&self) -> (r: (usize, Option<usize>)) {
        if self.feed.is_some() {
            return (0, None);
        }
        proof {
            lemma_entry_map_len(self.by_id.entries@);
        }
        (0, self.by_id.len().checked_add(self.count_alone()))
    }

    fn mark_invalid(
        &mut self,
        transaction: &ValidPoolTransaction,
        kind: InvalidPoolTransactionError,
    ) {
        let ghost before = self@;
        if !transaction.transaction.is_expiring_nonce() {
            match transaction.transaction.aa_transaction_id() {
                Some(id) => {
                    self.invalid.insert(id.seq_id, ());
                },
                None => {},
            }
        }
        assert(self@ =~= marked_invalid(before, *transaction));
    }

    fn no_updates(&mut self) {
        self.feed = None;
        self.last_priority = None;
        assert(self@ =~= (BestState { feed: None, last_priority: None, ..old(self)@ }));
    }

    fn set_skip_blobs(&mut self, skip_blobs: bool) {
    }
}

} // verus!
