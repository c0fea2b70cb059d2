//! An iterator over the best transactions of both pools, and one that skips what the state no
//! longer allows.
use crate::best_2d::{advanced, marked_invalid, BestAA2dTransactions, BestState};
use crate::best_left::{best_sound, law_step_takes_one, upper, waiting};
use crate::best_transactions::{fewer, BestTransaction, BestTransactions};
use crate::error::InvalidPoolTransactionError;
use crate::ordered::{OrdKey, SortedMap};
use crate::pending::{priority, tip, InvalidTransactionError, Priority};
use crate::primitives::{two_256, Address, U256};
use crate::tip20::{is_tip20_prefix, tip20_prefixed};
use crate::transaction::ValidPoolTransaction;
use vstd::prelude::*;

verus! {

/// A best-transaction iterator that merges the protocol pool and the 2D nonces pool, always
/// yielding the next best item from either iterator.
#[derive(Debug)]
pub struct MergeBestTransactions<P> {
    /// The iterator over the protocol pool.
    pub protocol_pool: P,
    /// The iterator over the 2D nonces pool.
    pub aa_2d_pool: BestAA2dTransactions,
    /// The next transaction of the protocol pool, if it was fetched.
    pub next_protocol_pool: Option<(BestTransaction, Priority)>,
    /// The next transaction of the 2D nonces pool, if it was fetched.
    pub next_aa_2d_pool: Option<(BestTransaction, Priority)>,
    /// The base fee at which priorities are compared.
    pub base_fee: u64,
}

/// What the merging iterator holds.
#[verifier::reject_recursive_types(S)]
pub struct MergeState<S> {
    /// What the iterator over the protocol pool holds.
    pub protocol: S,
    /// What the iterator over the 2D nonces pool holds.
    pub aa_2d: BestState,
    /// The next transaction of the protocol pool, if it was fetched.
    pub next_protocol: Option<(BestTransaction, Priority)>,
    /// The next transaction of the 2D nonces pool, if it was fetched.
    pub next_aa_2d: Option<(BestTransaction, Priority)>,
    /// The base fee at which priorities are compared.
    pub base_fee: u64,
}

/// A transaction with its priority at a base fee.
pub open spec fn priced(tx: Option<BestTransaction>, base_fee: u64) -> Option<
    (BestTransaction, Priority),
> {
    match tx {
        Some(tx) => Some((tx, tip(tx.transaction, base_fee))),
        None => None,
    }
}

/// The iterator after it fetched the next transaction of the protocol pool, unless it had.
pub open spec fn protocol_fetched<P: BestTransactions>(m: MergeState<P::State>) -> MergeState<
    P::State,
> {
    if m.next_protocol is Some {
        m
    } else {
        let (protocol, tx) = P::stepped(m.protocol);
        MergeState { protocol, next_protocol: priced(tx, m.base_fee), ..m }
    }
}

/// The iterator after it fetched the next transaction of the 2D nonces pool, unless it had.
pub open spec fn aa_2d_fetched<S>(m: MergeState<S>) -> MergeState<S> {
    if m.next_aa_2d is Some {
        m
    } else {
        MergeState {
            aa_2d: advanced(m.aa_2d).0,
            next_aa_2d: match advanced(m.aa_2d).1 {
                Some(tx) => Some((tx.transaction, tx.priority)),
                None => None,
            },
            ..m
        }
    }
}

/// The protocol pool has the next best transaction: the other has none, or one of no higher
/// priority.
pub open spec fn protocol_first<S>(m: MergeState<S>) -> bool {
    m.next_protocol is Some && (m.next_aa_2d is None || (m.next_protocol->0).1.rank()
        >= (m.next_aa_2d->0).1.rank())
}

/// The iterator after it gave away the better one of the fetched transactions.
pub open spec fn better_taken<S>(m: MergeState<S>) -> (
    MergeState<S>,
    Option<(BestTransaction, Priority)>,
) {
    if protocol_first(m) {
        (MergeState { next_protocol: None, ..m }, m.next_protocol)
    } else {
        (MergeState { next_aa_2d: None, ..m }, m.next_aa_2d)
    }
}

/// The iterator after its next step, and the transaction with the higher priority from either pool.
pub open spec fn merged<P: BestTransactions>(m: MergeState<P::State>) -> (
    MergeState<P::State>,
    Option<(BestTransaction, Priority)>,
) {
    better_taken(aa_2d_fetched(protocol_fetched::<P>(m)))
}

/// The number of transactions that were fetched and not yielded yet.
pub open spec fn buffered<S>(m: MergeState<S>) -> nat {
    (if m.next_protocol is Some {
        1nat
    } else {
        0nat
    }) + (if m.next_aa_2d is Some {
        1nat
    } else {
        0nat
    })
}

/// The sum, or the largest number if it does not fit.
pub open spec fn capped_sum(a: int, b: int) -> int {
    if a + b <= usize::MAX {
        a + b
    } else {
        usize::MAX as int
    }
}

impl<P: BestTransactions> MergeBestTransactions<P> {
    /// Creates a new iterator over the given iterators.
    pub fn new(protocol_pool: P, aa_2d_pool: BestAA2dTransactions, base_fee: u64) -> (r: Self)
        requires
            protocol_pool.inv(),
            aa_2d_pool.wf(),
        ensures
            r.inv(),
            r.state() == (MergeState::<P::State> {
                protocol: protocol_pool.state(),
                aa_2d: aa_2d_pool@,
                next_protocol: None,
                next_aa_2d: None,
                base_fee,
            }),
    {
        MergeBestTransactions {
            protocol_pool,
            aa_2d_pool,
            next_protocol_pool: None,
            next_aa_2d_pool: None,
            base_fee,
        }
    }

    /// Returns the next transaction from either pool with the higher priority.
    pub fn next_best(&mut self) -> (r: Option<(BestTransaction, Priority)>)
        requires
            old(self).inv(),
        ensures
            final(self).inv(),
            (final(self).state(), r) == merged::<P>(old(self).state()),
    {
        if self.next_protocol_pool.is_none() {
            self.next_protocol_pool = match self.protocol_pool.next() {
                Some(tx) => {
                    let priority = priority(&tx.transaction, self.base_fee);
                    Some((tx, priority))
                },
                None => None,
            };
        }
        if self.next_aa_2d_pool.is_none() {
            self.next_aa_2d_pool = self.aa_2d_pool.next_tx_and_priority();
        }
        let protocol_first: bool = match (&self.next_protocol_pool, &self.next_aa_2d_pool) {
            (None, _) => false,
            (Some(_), None) => true,
            (Some((_, protocol_priority)), Some((_, aa_2d_priority))) => {
                !protocol_priority.below(aa_2d_priority)
            },
        };
        if protocol_first {
            self.next_protocol_pool.take()
        } else {
            self.next_aa_2d_pool.take()
        }
    }
}

impl<P: BestTransactions> BestTransactions for MergeBestTransactions<P> {
    type State = MergeState<P::State>;

    open spec fn state(&self) -> MergeState<P::State> {
        MergeState {
            protocol: self.protocol_pool.state(),
            aa_2d: self.aa_2d_pool@,
            next_protocol: self.next_protocol_pool,
            next_aa_2d: self.next_aa_2d_pool,
            base_fee: self.base_fee,
        }
    }

    open spec fn inv(&self) -> bool {
        self.protocol_pool.inv() && self.aa_2d_pool.wf()
    }

    open spec fn sound(s: MergeState<P::State>) -> bool {
        P::sound(s.protocol) && best_sound(s.aa_2d)
    }

    open spec fn stepped(s: MergeState<P::State>) -> (
        MergeState<P::State>,
        Option<BestTransaction>,
    ) {
        (
            merged::<P>(s).0,
            match merged::<P>(s).1 {
                Some((tx, _)) => Some(tx),
                None => None,
            },
        )
    }

    /// A transaction that belongs into the 2D nonces pool is marked there, any other in the
    /// protocol pool.
    open spec fn after_invalid(
        s: MergeState<P::State>,
        transaction: ValidPoolTransaction,
        kind: InvalidPoolTransactionError,
    ) -> MergeState<P::State> {
        if transaction.transaction.spec_is_aa_2d() {
            MergeState { aa_2d: marked_invalid(s.aa_2d, transaction), ..s }
        } else {
            MergeState { protocol: P::after_invalid(s.protocol, transaction, kind), ..s }
        }
    }

    open spec fn after_no_updates(s: MergeState<P::State>) -> MergeState<P::State> {
        MergeState {
            protocol: P::after_no_updates(s.protocol),
            aa_2d: BestState { feed: None, last_priority: None, ..s.aa_2d },
            ..s
        }
    }

    open spec fn after_skip_blobs(s: MergeState<P::State>, skip_blobs: bool) -> MergeState<
        P::State,
    > {
        MergeState { protocol: P::after_skip_blobs(s.protocol, skip_blobs), ..s }
    }

    /// What was fetched and what either iterator expects, as far as both know and it fits.
    open spec fn hint(s: MergeState<P::State>) -> (usize, Option<usize>) {
        let protocol = P::hint(s.protocol);
        let aa_2d = <BestAA2dTransactions as BestTransactions>::hint(s.aa_2d);
        let both = buffered(s) as int;
        (
            capped_sum(capped_sum(both, protocol.0 as int), aa_2d.0 as int) as usize,
            match (protocol.1, aa_2d.1) {
                (Some(a), Some(b)) => if a + b + both <= usize::MAX {
                    Some((a + b + both) as usize)
                } else {
                    None
                },
                _ => None,
            },
        )
    }

    open spec fn left(s: MergeState<P::State>) -> (nat, nat) {
        (
            P::left(s.protocol).0 + waiting(s.aa_2d),
            P::left(s.protocol).1 + upper(s.aa_2d) + buffered(s),
        )
    }

    proof fn inv_is_sound(&self) {
        self.protocol_pool.inv_is_sound();
        self.aa_2d_pool.inv_is_sound();
    }

    proof fn step_takes_one(s: MergeState<P::State>) {
        P::step_takes_one(s.protocol);
        law_step_takes_one(s.aa_2d);
    }

    proof fn invalid_adds_none(
        s: MergeState<P::State>,
        transaction: ValidPoolTransaction,
        kind: InvalidPoolTransactionError,
    ) {
        P::invalid_adds_none(s.protocol, transaction, kind);
    }

    fn next(&mut self) -> (r: Option<BestTransaction>) {
        match self.next_best() {
            Some((tx, _)) => Some(tx),
            None => None,
        }
    }

    fn size_hint(&self) -> (r: (usize, Option<usize>)) {
        let mut buffered: usize = 0;
        if self.next_protocol_pool.is_some() {
            buffered = buffered + 1;
        }
        if self.next_aa_2d_pool.is_some() {
            buffered = buffered + 1;
        }
        let (protocol_lower, protocol_upper) = self.protocol_pool.size_hint();
        let (aa_2d_lower, aa_2d_upper) = self.aa_2d_pool.size_hint();
        let upper: Option<usize> = match (protocol_upper, aa_2d_upper) {
            (Some(protocol_upper), Some(aa_2d_upper)) => match protocol_upper.checked_add(
                aa_2d_upper,
            ) {
                Some(upper) => upper.checked_add(buffered),
                None => None,
            },
            _ => None,
        };
        (buffered.saturating_add(protocol_lower).saturating_add(aa_2d_lower), upper)
    }

    fn mark_invalid(
        &mut self,
        transaction: &ValidPoolTransaction,
        kind: InvalidPoolTransactionError,
    ) {
        if transaction.transaction.is_aa_2d() {
            self.aa_2d_pool.mark_invalid(transaction, kind);
        } else {
            self.protocol_pool.mark_invalid(transaction, kind);
        }
    }

    fn no_updates(&mut self) {
        self.protocol_pool.no_updates();
        self.aa_2d_pool.no_updates();
    }

    fn set_skip_blobs(&mut self, skip_blobs: bool) {
        self.protocol_pool.set_skip_blobs(skip_blobs);
        self.aa_2d_pool.set_skip_blobs(skip_blobs);
    }
}

/// The merging iterator always yields one of the two next transactions, and the other one has no
/// higher priority. On a tie the protocol pool goes first.
pub proof fn law_merge_yields_the_better<P: BestTransactions>(m: MergeState<P::State>)
    ensures
        ({
            let ready = aa_2d_fetched(protocol_fetched::<P>(m));
            let (after, taken) = merged::<P>(m);
            &&& taken is None <==> ready.next_protocol is None && ready.next_aa_2d is None
            &&& taken is Some ==> (taken == ready.next_protocol || taken == ready.next_aa_2d)
            &&& taken is Some && ready.next_protocol is Some ==> (taken->0).1.rank()
                >= (ready.next_protocol->0).1.rank()
            &&& taken is Some && ready.next_aa_2d is Some ==> (taken->0).1.rank()
                >= (ready.next_aa_2d->0).1.rank()
            &&& ready.next_protocol is Some && ready.next_aa_2d is Some
                && (ready.next_protocol->0).1.rank() == (ready.next_aa_2d->0).1.rank() ==> taken
                == ready.next_protocol
            &&& buffered(after) + (if taken is Some {
                1nat
            } else {
                0nat
            }) == buffered(ready)
        }),
{
}

/// A storage slot of a token.
#[derive(Debug, Clone, Copy, PartialEq, Eq, Hash, Structural)]
pub struct TokenSlot {
    /// The token.
    pub token: Address,
    /// The slot.
    pub slot: U256,
}

impl OrdKey for TokenSlot {
    open spec fn ord(self) -> int {
        self.token.ord() * two_256() + self.slot.ord()
    }

    proof fn ord_injective(self, other: Self) {
        self.token.ord_injective(other.token);
        self.slot.ord_injective(other.slot);
    }

    fn precedes(&self, other: &Self) -> (r: bool) {
        proof {
            if self.token.ord() == other.token.ord() {
                self.token.ord_injective(other.token);
            }
        }
        self.token.precedes(&other.token) || (self.token == other.token && self.slot.precedes(
            &other.slot,
        ))
    }
}

/// A storage slot that a transaction touched.
#[derive(Debug, Clone, Copy, PartialEq, Eq, Structural)]
pub struct SlotChange {
    /// The slot.
    pub slot: U256,
    /// What it held before.
    pub original_value: U256,
    /// What it holds now.
    pub present_value: U256,
}

/// The storage of an account that a transaction touched.
#[derive(Debug, Clone)]
pub struct AccountChange {
    /// The account.
    pub address: Address,
    /// The slots.
    pub storage: Vec<SlotChange>,
}

/// The tracked balances after a slot of a token changed: one that went down is tracked, and one
/// that is tracked stays up to date.
pub open spec fn noted(
    balances: Map<TokenSlot, U256>,
    token: Address,
    change: SlotChange,
) -> Map<TokenSlot, U256> {
    let key = TokenSlot { token, slot: change.slot };
    if change.present_value@ < change.original_value@ || balances.contains_key(key) {
        balances.insert(key, change.present_value)
    } else {
        balances
    }
}

/// The tracked balances after slots of a token changed, one after the other.
pub open spec fn noted_slots(
    balances: Map<TokenSlot, U256>,
    token: Address,
    changes: Seq<SlotChange>,
) -> Map<TokenSlot, U256>
    decreases changes.len(),
{
    if changes.len() == 0 {
        balances
    } else {
        noted(noted_slots(balances, token, changes.drop_last()), token, changes.last())
    }
}

/// The tracked balances after a transaction touched accounts. Only TIP-20 tokens hold balances.
pub open spec fn noted_accounts(
    balances: Map<TokenSlot, U256>,
    accounts: Seq<AccountChange>,
) -> Map<TokenSlot, U256>
    decreases accounts.len(),
{
    if accounts.len() == 0 {
        balances
    } else {
        let before = noted_accounts(balances, accounts.drop_last());
        if tip20_prefixed(accounts.last().address) {
            noted_slots(before, accounts.last().address, accounts.last().storage@)
        } else {
            before
        }
    }
}

/// What becomes of a candidate transaction.
#[derive(Debug, Clone, Copy, PartialEq, Eq, Structural)]
pub enum Verdict {
    /// It is yielded.
    Yield,
    /// It is passed over, as the balance that pays for it is unknown.
    Skip,
    /// The balance that pays for it went below its cost.
    Unaffordable {
        /// The balance.
        balance: U256,
        /// The cost.
        cost: U256,
    },
}

/// What becomes of a candidate transaction, given the balances that went down.
pub open spec fn judged(balances: Map<TokenSlot, U256>, tx: ValidPoolTransaction) -> Verdict {
    match tx.transaction.spec_fee_balance_slot() {
        Some((token, slot)) => {
            let key = TokenSlot { token, slot };
            if balances.contains_key(key) && balances[key]@ < tx.transaction.spec_fee_token_cost() {
                Verdict::Unaffordable {
                    balance: balances[key],
                    cost: crate::primitives::word(tx.transaction.spec_fee_token_cost()),
                }
            } else {
                Verdict::Yield
            }
        },
        None => Verdict::Skip,
    }
}

/// How a transaction is marked that the fee payer can no longer afford.
pub open spec fn unaffordable(balance: U256, cost: U256) -> InvalidPoolTransactionError {
    InvalidPoolTransactionError::Consensus(
        InvalidTransactionError::InsufficientFunds { got: balance, expected: cost },
    )
}

/// The transaction behind a handle.
pub open spec fn shared(tx: BestTransaction) -> ValidPoolTransaction {
    *tx
}

/// The inner iterator after its next steps up to the first transaction that is yielded, and that
/// transaction. Those that the fee payer can no longer afford are marked as invalid on the way.
pub open spec fn awaited<I: BestTransactions>(
    s: I::State,
    balances: Map<TokenSlot, U256>,
) -> (I::State, Option<BestTransaction>)
    decreases I::left(s).0, I::left(s).1,
{
    if !I::sound(s) {
        (s, None)
    } else {
        let (next, yielded) = I::stepped(s);
        match yielded {
            Some(tx) => match judged(balances, shared(tx)) {
                Verdict::Yield => (next, Some(tx)),
                Verdict::Skip => {
                    proof {
                        I::step_takes_one(s);
                    }
                    awaited::<I>(next, balances)
                },
                Verdict::Unaffordable { balance, cost } => {
                    proof {
                        I::step_takes_one(s);
                        I::invalid_adds_none(next, shared(tx), unaffordable(balance, cost));
                    }
                    awaited::<I>(
                        I::after_invalid(next, shared(tx), unaffordable(balance, cost)),
                        balances,
                    )
                },
            },
            None => (next, None),
        }
    }
}

/// An iterator that tracks execution state changes and skips transactions that would fail due to
/// state mutations from previously included transactions.
#[derive(Debug)]
pub struct StateAwareBestTransactions<I> {
    /// The iterator that the transactions come from.
    pub inner: I,
    /// The balance slots of TIP-20 tokens that went down, with the balance they hold now.
    pub decreased_balances: SortedMap<TokenSlot, U256>,
}

/// What the state-aware iterator holds.
#[verifier::reject_recursive_types(S)]
pub struct AwareState<S> {
    /// What the inner iterator holds.
    pub inner: S,
    /// The balance slots that went down, with the balance they hold now.
    pub decreased: Map<TokenSlot, U256>,
}

impl<I: BestTransactions> StateAwareBestTransactions<I> {
    /// Wraps an existing iterator.
    pub fn new(inner: I) -> (r: Self)
        requires
            inner.inv(),
        ensures
            r.inv(),
            r.state() == (AwareState::<I::State> {
                inner: inner.state(),
                decreased: Map::empty(),
            }),
    {
        StateAwareBestTransactions { inner, decreased_balances: SortedMap::new() }
    }

    /// Takes note of what a slot of a token holds after a transaction.
    fn track(&mut self, token: Address, change: &SlotChange)
        requires
            old(self).inv(),
        ensures
            final(self).inv(),
            final(self).state() == (AwareState::<I::State> {
                decreased: noted(old(self).state().decreased, token, *change),
                ..old(self).state()
            }),
    {
        let key = TokenSlot { token, slot: change.slot };
        if change.present_value.precedes(&change.original_value)
            || self.decreased_balances.contains_key(&key) {
            self.decreased_balances.insert(key, change.present_value);
        }
    }

    /// Takes note of what the slots of a token hold after a transaction.
    fn track_slots(&mut self, account: &AccountChange)
        requires
            old(self).inv(),
        ensures
            final(self).inv(),
            final(self).state() == (AwareState::<I::State> {
                decreased: noted_slots(
                    old(self).state().decreased,
                    account.address,
                    account.storage@,
                ),
                ..old(self).state()
            }),
    {
        let ghost before = self.state();
        let ghost changes = account.storage@;
        let mut i: usize = 0;
        assert(changes.take(0) =~= Seq::empty());
        while i < account.storage.len()
            invariant
                changes == account.storage@,
                self.inv(),
                i <= changes.len(),
                self.state() == (AwareState::<I::State> {
                    decreased: noted_slots(
                        before.decreased,
                        account.address,
                        changes.take(i as int),
                    ),
                    ..before
                }),
            decreases changes.len() - i,
        {
            proof {
                assert(changes.take(i + 1).drop_last() =~= changes.take(i as int));
            }
            self.track(account.address, &account.storage[i]);
            i = i + 1;
        }
        assert(changes.take(i as int) =~= changes);
    }

    /// Processes a new transaction execution result and collects any relevant state changes that
    /// might affect other transactions validity.
    pub fn on_new_result(&mut self, result: &Vec<AccountChange>)
        requires
            old(self).inv(),
        ensures
            final(self).inv(),
            final(self).state() == (AwareState::<I::State> {
                decreased: noted_accounts(old(self).state().decreased, result@),
                ..old(self).state()
            }),
    {
        let ghost before = self.state();
        let mut i: usize = 0;
        assert(result@.take(0) =~= Seq::empty());
        while i < result.len()
            invariant
                self.inv(),
                i <= result@.len(),
                self.state() == (AwareState::<I::State> {
                    decreased: noted_accounts(before.decreased, result@.take(i as int)),
                    ..before
                }),
            decreases result@.len() - i,
        {
            proof {
                assert(result@.take(i + 1).drop_last() =~= result@.take(i as int));
            }
            if is_tip20_prefix(&result[i].address) {
                self.track_slots(&result[i]);
            }
            i = i + 1;
        }
        assert(result@.take(i as int) =~= result@);
    }

    /// Decides what becomes of a candidate transaction.
    pub fn judge(&self, tx: &ValidPoolTransaction) -> (r: Verdict)
        requires
            self.inv(),
        ensures
            r == judged(self.state().decreased, *tx),
    {
        match tx.transaction.current_fee_balance_slot() {
            Some((token, slot)) => match self.decreased_balances.get(&TokenSlot { token, slot }) {
                Some(balance) => {
                    let cost = tx.transaction.fee_token_cost();
                    proof {
                        crate::primitives::lemma_word(cost@);
                        cost.ord_injective(crate::primitives::word(cost@));
                    }
                    if balance.precedes(&cost) {
                        Verdict::Unaffordable { balance: *balance, cost }
                    } else {
                        Verdict::Yield
                    }
                },
                None => Verdict::Yield,
            },
            None => Verdict::Skip,
        }
    }
}

impl<I: BestTransactions> BestTransactions for StateAwareBestTransactions<I> {
    type State = AwareState<I::State>;

    open spec fn state(&self) -> AwareState<I::State> {
        AwareState { inner: self.inner.state(), decreased: self.decreased_balances@ }
    }

    open spec fn inv(&self) -> bool {
        self.inner.inv() && self.decreased_balances.wf()
    }

    open spec fn sound(s: AwareState<I::State>) -> bool {
        I::sound(s.inner)
    }

    open spec fn stepped(s: AwareState<I::State>) -> (
        AwareState<I::State>,
        Option<BestTransaction>,
    ) {
        let (inner, tx) = awaited::<I>(s.inner, s.decreased);
        (AwareState { inner, ..s }, tx)
    }

    open spec fn after_invalid(
        s: AwareState<I::State>,
        transaction: ValidPoolTransaction,
        kind: InvalidPoolTransactionError,
    ) -> AwareState<I::State> {
        AwareState { inner: I::after_invalid(s.inner, transaction, kind), ..s }
    }

    open spec fn after_no_updates(s: AwareState<I::State>) -> AwareState<I::State> {
        AwareState { inner: I::after_no_updates(s.inner), ..s }
    }

    open spec fn after_skip_blobs(s: AwareState<I::State>, skip_blobs: bool) -> AwareState<
        I::State,
    > {
        AwareState { inner: I::after_skip_blobs(s.inner, skip_blobs), ..s }
    }

    /// Nothing is known of the number of transactions to come.
    open spec fn hint(s: AwareState<I::State>) -> (usize, Option<usize>) {
        (0, None)
    }

    open spec fn left(s: AwareState<I::State>) -> (nat, nat) {
        I::left(s.inner)
    }

    proof fn inv_is_sound(&self) {
        self.inner.inv_is_sound();
    }

    proof fn step_takes_one(s: AwareState<I::State>) {
        lemma_awaited::<I>(s.inner, s.decreased);
    }

    proof fn invalid_adds_none(
        s: AwareState<I::State>,
        transaction: ValidPoolTransaction,
        kind: InvalidPoolTransactionError,
    ) {
        I::invalid_adds_none(s.inner, transaction, kind);
    }

    fn next(&mut self) -> (r: Option<BestTransaction>) {
        let ghost whole = awaited::<I>(self.state().inner, self.state().decreased);
        let ghost balances = self.state().decreased;
        loop
            invariant
                self.inv(),
                balances == self.state().decreased,
                balances == old(self).state().decreased,
                whole == awaited::<I>(self.state().inner, balances),
                whole == awaited::<I>(old(self).state().inner, balances),
            decreases I::left(self.state().inner).0, I::left(self.state().inner).1,
        {
            proof {
                self.inner.inv_is_sound();
                I::step_takes_one(self.state().inner);
            }
            let tx = match self.inner.next() {
                Some(tx) => tx,
                None => {
                    return None;
                },
            };
            match self.judge(&tx) {
                Verdict::Yield => {
                    return Some(tx);
                },
                Verdict::Skip => {},
                Verdict::Unaffordable { balance, cost } => {
                    proof {
                        self.inner.inv_is_sound();
                        I::invalid_adds_none(self.state().inner, shared(tx), unaffordable(balance, cost));
                    }
                    self.inner.mark_invalid(
                        &tx,
                        InvalidPoolTransactionError::Consensus(
                            InvalidTransactionError::InsufficientFunds {
                                got: balance,
                                expected: cost,
                            },
                        ),
                    );
                },
            }
        }
    }

    fn size_hint(&self) -> (r: (usize, Option<usize>)) {
        (0, None)
    }

    fn mark_invalid(
        &mut self,
        transaction: &ValidPoolTransaction,
        kind: InvalidPoolTransactionError,
    ) {
        self.inner.mark_invalid(transaction, kind);
    }

    fn no_updates(&mut self) {
        self.inner.no_updates();
    }

    fn set_skip_blobs(&mut self, skip_blobs: bool) {
        self.inner.set_skip_blobs(skip_blobs);
    }
}

/// Awaiting the next transaction leaves no more than there was, and less if there is one.
pub proof fn lemma_awaited<I: BestTransactions>(s: I::State, balances: Map<TokenSlot, U256>)
    requires
        I::sound(s),
    ensures
        I::sound(awaited::<I>(s, balances).0),
        !fewer(I::left(s), I::left(awaited::<I>(s, balances).0)),
        awaited::<I>(s, balances).1 is Some ==> fewer(
            I::left(awaited::<I>(s, balances).0),
            I::left(s),
        ),
    decreases I::left(s).0, I::left(s).1,
{
    I::step_takes_one(s);
    let (next, yielded) = I::stepped(s);
    match yielded {
        Some(tx) => match judged(balances, shared(tx)) {
            Verdict::Yield => {},
            Verdict::Skip => {
                lemma_awaited::<I>(next, balances);
            },
            Verdict::Unaffordable { balance, cost } => {
                I::invalid_adds_none(next, shared(tx), unaffordable(balance, cost));
                lemma_awaited::<I>(
                    I::after_invalid(next, shared(tx), unaffordable(balance, cost)),
                    balances,
                );
            },
        },
        None => {},
    }
}

/// Every transaction that the state-aware iterator yields has a fee payer whose balance, if it
/// went down, still covers the cost.
pub proof fn law_yielded_is_affordable<I: BestTransactions>(
    s: I::State,
    balances: Map<TokenSlot, U256>,
)
    requires
        I::sound(s),
        awaited::<I>(s, balances).1 is Some,
    ensures
        judged(balances, shared(awaited::<I>(s, balances).1->0)) is Yield,
    decreases I::left(s).0, I::left(s).1,
{
    I::step_takes_one(s);
    let (next, yielded) = I::stepped(s);
    match yielded {
        Some(tx) => match judged(balances, shared(tx)) {
            Verdict::Yield => {},
            Verdict::Skip => {
                law_yielded_is_affordable::<I>(next, balances);
            },
            Verdict::Unaffordable { balance, cost } => {
                I::invalid_adds_none(next, shared(tx), unaffordable(balance, cost));
                law_yielded_is_affordable::<I>(
                    I::after_invalid(next, shared(tx), unaffordable(balance, cost)),
                    balances,
                );
            },
        },
        None => {},
    }
}

/// A balance that never went down is not tracked, and so holds back no transaction; one that is
/// tracked is always the one that was last seen.
pub proof fn law_tracked_balances(
    balances: Map<TokenSlot, U256>,
    token: Address,
    change: SlotChange,
    other: TokenSlot,
)
    ensures
        ({
            let key = TokenSlot { token, slot: change.slot };
            let after = noted(balances, token, change);
            &&& after.contains_key(key) <==> balances.contains_key(key)
                || change.present_value@ < change.original_value@
            &&& after.contains_key(key) ==> after[key] == change.present_value
            &&& other != key ==> (after.contains_key(other) == balances.contains_key(other)
                && (after.contains_key(other) ==> after[other] == balances[other]))
        }),
{
}

} // verus!
