//! Transactions with a priority, and the fees that decide it.
use crate::primitives::{Address, TxHash, U256};
use crate::transaction::{TempoPooledTransaction, ValidPoolTransaction};
use std::sync::Arc;
use vstd::prelude::*;

verus! {

/// `Arc::clone` of std: the new handle points to the same value as the old one.
#[verifier::external_body]
pub(crate) fn share<T>(handle: &Arc<T>) -> (r: Arc<T>)
    ensures
        r == *handle,
{
    Arc::clone(handle)
}

/// The priority of a transaction for inclusion in a block.
#[derive(Debug, Clone, Copy, PartialEq, Eq, Structural)]
pub enum Priority {
    /// The transaction does not even pay the base fee. Ranks below every value.
    Unpriced,
    /// What the transaction pays above the base fee, per gas.
    Value(u128),
}

impl Priority {
    /// The integer by which priorities are ordered.
    pub open spec fn rank(self) -> int {
        match self {
            Priority::Unpriced => -1,
            Priority::Value(v) => v as int,
        }
    }

    /// Returns `true` if this priority is lower than `other`.
    pub fn below(&self, other: &Priority) -> (r: bool)
        ensures
            r == (self.rank() < other.rank()),
    {
        match (self, other) {
            (Priority::Unpriced, Priority::Unpriced) => false,
            (Priority::Unpriced, Priority::Value(_)) => true,
            (Priority::Value(_), Priority::Unpriced) => false,
            (Priority::Value(a), Priority::Value(b)) => *a < *b,
        }
    }
}

/// What a transaction pays above the base fee per gas: the maximum fee less the base fee, capped
/// by the priority fee it sets. Nothing if the maximum fee is below the base fee.
pub open spec fn tip(transaction: TempoPooledTransaction, base_fee: u64) -> Priority {
    if transaction.inner.max_fee_per_gas < base_fee {
        Priority::Unpriced
    } else {
        let room = transaction.inner.max_fee_per_gas - base_fee;
        match transaction.inner.max_priority_fee_per_gas {
            Some(cap) => Priority::Value(if cap < room { cap } else { room as u128 }),
            None => Priority::Value(room as u128),
        }
    }
}

/// Returns the priority of a transaction at a base fee.
pub fn priority(transaction: &TempoPooledTransaction, base_fee: u64) -> (r: Priority)
    ensures
        r == tip(*transaction, base_fee),
{
    let base: u128 = base_fee as u128;
    if transaction.inner.max_fee_per_gas < base {
        Priority::Unpriced
    } else {
        let room: u128 = transaction.inner.max_fee_per_gas - base;
        match transaction.inner.max_priority_fee_per_gas {
            Some(cap) => {
                if cap < room {
                    Priority::Value(cap)
                } else {
                    Priority::Value(room)
                }
            },
            None => Priority::Value(room),
        }
    }
}

/// By how many percent a replacement has to pay more.
#[derive(Debug, Clone, Copy, PartialEq, Eq, Structural)]
pub struct PriceBumpConfig {
    /// The bump of an ordinary transaction.
    pub default_price_bump: u128,
    /// The bump of a blob transaction.
    pub replace_blob_tx_price_bump: u128,
}

/// The type of a blob transaction.
pub const BLOB_TX_TYPE: u8 = 3;

/// The default price bump, in percent.
pub const DEFAULT_PRICE_BUMP: u128 = 10;

/// The price bump of blob transactions, in percent.
pub const REPLACE_BLOB_PRICE_BUMP: u128 = 100;

impl PriceBumpConfig {
    /// The bump for a transaction type.
    pub open spec fn spec_price_bump(self, ty: u8) -> u128 {
        if ty == BLOB_TX_TYPE {
            self.replace_blob_tx_price_bump
        } else {
            self.default_price_bump
        }
    }

    /// Returns the bump for a transaction type.
    pub fn price_bump(&self, ty: u8) -> (r: u128)
        ensures
            r == self.spec_price_bump(ty),
    {
        if ty == BLOB_TX_TYPE {
            self.replace_blob_tx_price_bump
        } else {
            self.default_price_bump
        }
    }
}

impl Default for PriceBumpConfig {
    fn default() -> (r: Self)
        ensures
            r.default_price_bump == DEFAULT_PRICE_BUMP,
            r.replace_blob_tx_price_bump == REPLACE_BLOB_PRICE_BUMP,
    {
        PriceBumpConfig {
            default_price_bump: DEFAULT_PRICE_BUMP,
            replace_blob_tx_price_bump: REPLACE_BLOB_PRICE_BUMP,
        }
    }
}

/// A fee raised by a number of percent, rounded down.
pub open spec fn bumped(fee: int, bump: int) -> int {
    fee * (100 + bump) / 100
}

proof fn lemma_bumped(fee: int, bump: int, q: int, s: int, e: int, f: int)
    requires
        bump == 100 * q + s,
        fee == 100 * e + f,
        0 <= s < 100,
        0 <= f < 100,
        0 <= e,
        0 <= q,
    ensures
        bumped(fee, bump) == fee + fee * q + e * s + (f * s) / 100,
{
    let whole = fee + fee * q + e * s;
    assert(fee * (100 + bump) == 100 * whole + f * s) by (nonlinear_arith)
        requires
            bump == 100 * q + s,
            fee == 100 * e + f,
            whole == fee + fee * q + e * s,
    ;
    assert(0 <= f * s) by (nonlinear_arith)
        requires
            0 <= f,
            0 <= s,
    ;
    assert((100 * whole + f * s) / 100 == whole + (f * s) / 100) by (nonlinear_arith);
}

/// Returns `true` if `offer` is below `fee` raised by `bump` percent.
pub fn below_bump(offer: u128, fee: u128, bump: u128) -> (r: bool)
    ensures
        r == (offer < bumped(fee as int, bump as int)),
{
    let q: u128 = bump / 100;
    let s: u128 = bump % 100;
    let e: u128 = fee / 100;
    let f: u128 = fee % 100;
    proof {
        lemma_bumped(fee as int, bump as int, q as int, s as int, e as int, f as int);
        assert(0 <= e * s <= e * 100) by (nonlinear_arith)
            requires
                0 <= s < 100,
                0 <= e,
        ;
        assert(0 <= f * s <= 9801) by (nonlinear_arith)
            requires
                0 <= s <= 99,
                0 <= f <= 99,
        ;
        assert(0 <= fee * q) by (nonlinear_arith)
            requires
                0 <= fee,
                0 <= q,
        ;
    }
    let part: u128 = e * s;
    let rest: u128 = (f * s) / 100;
    match fee.checked_mul(q) {
        Some(multiple) => match fee.checked_add(multiple) {
            Some(sum) => match sum.checked_add(part) {
                Some(sum) => match sum.checked_add(rest) {
                    Some(sum) => offer < sum,
                    None => true,
                },
                None => true,
            },
            None => true,
        },
        None => true,
    }
}

/// A fee, or zero if it is not set.
pub open spec fn fee_or_zero(fee: Option<u128>) -> int {
    match fee {
        Some(fee) => fee as int,
        None => 0,
    }
}

/// A replacement offers less than the required bump over the transaction it would replace: in its
/// maximum fee, in its priority fee where both set one, or in its blob fee where one is set.
pub open spec fn underpriced(
    existing: TempoPooledTransaction,
    replacement: TempoPooledTransaction,
    config: PriceBumpConfig,
) -> bool {
    let bump = config.spec_price_bump(existing.inner.ty) as int;
    let tip = fee_or_zero(existing.inner.max_priority_fee_per_gas);
    let new_tip = fee_or_zero(replacement.inner.max_priority_fee_per_gas);
    ||| replacement.inner.max_fee_per_gas < bumped(existing.inner.max_fee_per_gas as int, bump)
    ||| (tip != 0 && new_tip != 0 && new_tip < bumped(tip, bump))
    ||| (existing.inner.max_fee_per_blob_gas is Some && fee_or_zero(
        replacement.inner.max_fee_per_blob_gas,
    ) < bumped(existing.inner.max_fee_per_blob_gas->0 as int, bump))
}

/// Returns `true` if a replacement does not offer the required price bump.
pub fn is_underpriced(
    existing: &TempoPooledTransaction,
    replacement: &TempoPooledTransaction,
    config: &PriceBumpConfig,
) -> (r: bool)
    ensures
        r == underpriced(*existing, *replacement, *config),
{
    let bump: u128 = config.price_bump(existing.inner.ty);
    if below_bump(replacement.inner.max_fee_per_gas, existing.inner.max_fee_per_gas, bump) {
        return true;
    }
    let tip: u128 = match existing.inner.max_priority_fee_per_gas {
        Some(fee) => fee,
        None => 0,
    };
    let new_tip: u128 = match replacement.inner.max_priority_fee_per_gas {
        Some(fee) => fee,
        None => 0,
    };
    if tip != 0 && new_tip != 0 && below_bump(new_tip, tip, bump) {
        return true;
    }
    match existing.inner.max_fee_per_blob_gas {
        Some(fee) => {
            let new_fee: u128 = match replacement.inner.max_fee_per_blob_gas {
                Some(fee) => fee,
                None => 0,
            };
            below_bump(new_fee, fee, bump)
        },
        None => false,
    }
}

/// A transaction with its priority and the number under which it was submitted.
#[derive(Debug)]
pub struct PendingTransaction {
    /// The number under which the transaction was submitted.
    pub submission_id: u64,
    /// The priority, which stays the same while the transaction is in the pool.
    pub priority: Priority,
    /// The transaction.
    pub transaction: Arc<ValidPoolTransaction>,
}

impl Clone for PendingTransaction {
    fn clone(&self) -> (r: Self)
        ensures
            r == *self,
    {
        PendingTransaction {
            submission_id: self.submission_id,
            priority: self.priority,
            transaction: share(&self.transaction),
        }
    }
}

impl PendingTransaction {
    /// This transaction is included before `other`: its priority is higher, or it is the same and
    /// this one was submitted earlier.
    pub open spec fn better(self, other: PendingTransaction) -> bool {
        ||| other.priority.rank() < self.priority.rank()
        ||| (other.priority.rank() == self.priority.rank() && self.submission_id
            < other.submission_id)
    }

    /// This transaction is evicted before `other`: its priority is lower, or it is the same and
    /// this one was submitted later, so that transactions that have waited longer stay.
    pub open spec fn worse(self, other: PendingTransaction) -> bool {
        ||| self.priority.rank() < other.priority.rank()
        ||| (self.priority.rank() == other.priority.rank() && self.submission_id
            > other.submission_id)
    }

    /// Returns `true` if this transaction is evicted before `other`.
    pub fn is_worse(&self, other: &PendingTransaction) -> (r: bool)
        ensures
            r == self.worse(*other),
    {
        self.priority.below(&other.priority) || (!other.priority.below(&self.priority)
            && self.submission_id > other.submission_id)
    }

    /// This transaction and `other` have the same priority and submission number.
    pub open spec fn ties(self, other: PendingTransaction) -> bool {
        self.priority.rank() == other.priority.rank() && self.submission_id == other.submission_id
    }

    /// Returns `true` if this transaction is included before `other`.
    pub fn is_better(&self, other: &PendingTransaction) -> (r: bool)
        ensures
            r == self.better(*other),
    {
        other.priority.below(&self.priority) || (!self.priority.below(&other.priority)
            && self.submission_id < other.submission_id)
    }
}

/// How many transactions, and how many bytes, a sub-pool may hold.
#[derive(Debug, Clone, Copy, PartialEq, Eq, Structural)]
pub struct SubPoolLimit {
    /// The maximum number of transactions.
    pub max_txs: usize,
    /// The maximum size of the transactions in bytes.
    pub max_size: usize,
}

/// The default maximum number of transactions of a sub-pool.
pub const SUBPOOL_MAX_TXS_DEFAULT: usize = 10_000;

/// The default maximum size of a sub-pool in bytes.
pub const SUBPOOL_MAX_SIZE_DEFAULT: usize = 20_971_520;

impl Default for SubPoolLimit {
    fn default() -> (r: Self)
        ensures
            r.max_txs == SUBPOOL_MAX_TXS_DEFAULT,
            r.max_size == SUBPOOL_MAX_SIZE_DEFAULT,
    {
        SubPoolLimit { max_txs: SUBPOOL_MAX_TXS_DEFAULT, max_size: SUBPOOL_MAX_SIZE_DEFAULT }
    }
}

/// A limit on the size of a response with pooled transactions.
#[derive(Debug, Clone, Copy, PartialEq, Eq, Structural)]
pub enum GetPooledTransactionLimit {
    /// No limit.
    Unlimited,
    /// The response ends with the transaction that takes it above this size.
    ResponseSizeSoftLimit(usize),
}

impl GetPooledTransactionLimit {
    /// The size is above the limit.
    pub open spec fn spec_exceeds(self, size: int) -> bool {
        match self {
            GetPooledTransactionLimit::Unlimited => false,
            GetPooledTransactionLimit::ResponseSizeSoftLimit(limit) => limit < size,
        }
    }

    /// Returns `true` if the size is above the limit.
    pub fn exceeds(&self, size: usize) -> (r: bool)
        ensures
            r == self.spec_exceeds(size as int),
    {
        match self {
            GetPooledTransactionLimit::Unlimited => false,
            GetPooledTransactionLimit::ResponseSizeSoftLimit(limit) => *limit < size,
        }
    }
}

/// A transaction that breaks a rule of the protocol.
#[derive(Debug, Clone, Copy, PartialEq, Eq, Structural)]
pub enum InvalidTransactionError {
    /// The nonce of the transaction is below that of the account.
    NonceNotConsistent {
        /// The nonce of the transaction.
        tx: u64,
        /// The nonce of the account.
        state: u64,
    },
    /// The account cannot pay for the transaction.
    InsufficientFunds {
        /// What the account has.
        got: U256,
        /// What the transaction costs.
        expected: U256,
    },
    /// The type of the transaction is not accepted.
    TxTypeNotSupported,
}

/// Why the pool for two-dimensional nonces refuses a transaction.
#[derive(Debug, Clone, Copy, PartialEq, Eq, Structural)]
pub enum PoolErrorKind {
    /// The transaction is already in the pool.
    AlreadyImported,
    /// The transaction would replace another one without paying enough more.
    ReplacementUnderpriced,
    /// The sender already has as many transactions in the pool as it may have.
    SpammerExceededCapacity(Address),
    /// The transaction breaks a rule of the protocol.
    InvalidTransaction(InvalidTransactionError),
}

/// The refusal of a transaction.
#[derive(Debug, Clone, Copy, PartialEq, Eq, Structural)]
pub struct PoolError {
    /// The hash of the transaction.
    pub hash: TxHash,
    /// The reason.
    pub kind: PoolErrorKind,
}

impl PoolError {
    /// Creates the refusal of a transaction.
    pub fn new(hash: TxHash, kind: PoolErrorKind) -> (r: Self)
        ensures
            r.hash == hash,
            r.kind == kind,
    {
        PoolError { hash, kind }
    }
}

/// The new fee is less than the old one raised by the given percentage, by one unit or more.
pub open spec fn falls_short(new_fee: int, old_fee: int, percent: int) -> bool {
    100 * (new_fee + 1) <= old_fee * (100 + percent)
}

proof fn lemma_bump_by_units(new_fee: int, old_fee: int, percent: int)
    ensures
        new_fee < bumped(old_fee, percent) <==> falls_short(new_fee, old_fee, percent),
{
    let product = old_fee * (100 + percent);
    assert(new_fee < product / 100 <==> 100 * (new_fee + 1) <= product);
}

/// A replacement is priced well enough exactly if its maximum fee is that of the transaction it
/// replaces raised by the configured percentage, up to one unit; and so is its priority fee where
/// both transactions set one other than zero, and its blob fee where the other sets one. The
/// percentage is the one for blob transactions if the transaction to be replaced is one. So no
/// replacement lowers the maximum fee.
pub proof fn law_replacement_pays_more(
    existing: TempoPooledTransaction,
    replacement: TempoPooledTransaction,
    config: PriceBumpConfig,
)
    ensures
        ({
            let percent = if existing.inner.ty == 3 {
                config.replace_blob_tx_price_bump as int
            } else {
                config.default_price_bump as int
            };
            let old = existing.inner;
            let new = replacement.inner;
            &&& !underpriced(existing, replacement, config) ==> {
                &&& new.max_fee_per_gas >= old.max_fee_per_gas
                &&& !falls_short(new.max_fee_per_gas as int, old.max_fee_per_gas as int, percent)
                &&& (old.max_priority_fee_per_gas matches Some(a)
                    && new.max_priority_fee_per_gas matches Some(b) && a != 0 && b != 0) ==> {
                    &&& new.max_priority_fee_per_gas->0 >= old.max_priority_fee_per_gas->0
                    &&& !falls_short(
                        new.max_priority_fee_per_gas->0 as int,
                        old.max_priority_fee_per_gas->0 as int,
                        percent,
                    )
                }
                &&& (old.max_fee_per_blob_gas is Some && new.max_fee_per_blob_gas is Some)
                    ==> !falls_short(
                    new.max_fee_per_blob_gas->0 as int,
                    old.max_fee_per_blob_gas->0 as int,
                    percent,
                )
                &&& (old.max_fee_per_blob_gas is Some && new.max_fee_per_blob_gas is None)
                    ==> !falls_short(0, old.max_fee_per_blob_gas->0 as int, percent)
            }
            &&& underpriced(existing, replacement, config) ==> {
                ||| falls_short(new.max_fee_per_gas as int, old.max_fee_per_gas as int, percent)
                ||| (old.max_priority_fee_per_gas matches Some(a)
                    && new.max_priority_fee_per_gas matches Some(b) && a != 0 && b != 0
                    && falls_short(b as int, a as int, percent))
                ||| (old.max_fee_per_blob_gas matches Some(a)
                    && new.max_fee_per_blob_gas matches Some(b) && falls_short(
                    b as int,
                    a as int,
                    percent,
                ))
                ||| (old.max_fee_per_blob_gas matches Some(a) && new.max_fee_per_blob_gas is None
                    && falls_short(0, a as int, percent))
            }
        }),
{
    let percent = config.spec_price_bump(existing.inner.ty) as int;
    let old = existing.inner;
    let new = replacement.inner;
    lemma_bump_by_units(new.max_fee_per_gas as int, old.max_fee_per_gas as int, percent);
    lemma_bump_by_units(
        fee_or_zero(new.max_priority_fee_per_gas),
        fee_or_zero(old.max_priority_fee_per_gas),
        percent,
    );
    lemma_bump_by_units(
        fee_or_zero(new.max_fee_per_blob_gas),
        fee_or_zero(old.max_fee_per_blob_gas),
        percent,
    );
    lemma_not_lower(new.max_fee_per_gas as int, old.max_fee_per_gas as int, percent);
    lemma_not_lower(
        fee_or_zero(new.max_priority_fee_per_gas),
        fee_or_zero(old.max_priority_fee_per_gas),
        percent,
    );
}

proof fn lemma_not_lower(new_fee: int, old_fee: int, percent: int)
    requires
        old_fee >= 0,
        percent >= 0,
    ensures
        new_fee < old_fee ==> falls_short(new_fee, old_fee, percent),
{
    assert(old_fee * (100 + percent) >= 100 * old_fee) by (nonlinear_arith)
        requires
            old_fee >= 0,
            percent >= 0,
    ;
}

/// Raising an offer never makes it underpriced: if a replacement is priced well enough, so is one
/// with fees that are no lower, and if it is underpriced, so is one with fees that are no higher.
pub proof fn law_higher_offer_is_no_worse(
    existing: TempoPooledTransaction,
    lower: TempoPooledTransaction,
    higher: TempoPooledTransaction,
    config: PriceBumpConfig,
)
    requires
        lower.inner.max_fee_per_gas <= higher.inner.max_fee_per_gas,
        lower.inner.max_priority_fee_per_gas matches Some(a)
            && higher.inner.max_priority_fee_per_gas matches Some(b) && 0 < a <= b,
        lower.inner.max_fee_per_blob_gas == higher.inner.max_fee_per_blob_gas,
    ensures
        underpriced(existing, higher, config) ==> underpriced(existing, lower, config),
{
}

/// What a transaction pays above the base fee is never more than what its maximum fee leaves room
/// for, and never more than its priority fee where it sets one; it is one of the two. A transaction
/// whose maximum fee is below the base fee ranks below all that pay it.
pub proof fn law_priority_is_the_effective_tip(tx: TempoPooledTransaction, base_fee: u64)
    ensures
        ({
            let p = tip(tx, base_fee);
            let max_fee = tx.inner.max_fee_per_gas;
            &&& max_fee < base_fee ==> p == Priority::Unpriced
            &&& max_fee >= base_fee ==> {
                &&& p is Value
                &&& p.rank() + base_fee <= max_fee
                &&& tx.inner.max_priority_fee_per_gas matches Some(cap) ==> p.rank() <= cap
                &&& p.rank() + base_fee == max_fee || (tx.inner.max_priority_fee_per_gas matches Some(
                    cap,
                ) && p.rank() == cap)
            }
        }),
{
}

/// Priorities rank by what they say is paid, and a transaction that does not pay the base fee
/// ranks below all.
pub proof fn law_ranks(a: u128, b: u128)
    ensures
        Priority::Value(a).rank() < Priority::Value(b).rank() <==> a < b,
        Priority::Value(a).rank() == a,
        Priority::Unpriced.rank() < Priority::Value(a).rank(),
{
}

/// Paying more never lowers the priority, and a higher base fee never raises it.
pub proof fn law_priority_is_monotone(
    a: TempoPooledTransaction,
    b: TempoPooledTransaction,
    base_fee: u64,
    higher_base_fee: u64,
)
    requires
        a.inner.max_fee_per_gas <= b.inner.max_fee_per_gas,
        b.inner.max_priority_fee_per_gas is None || (a.inner.max_priority_fee_per_gas is Some
            && a.inner.max_priority_fee_per_gas->0 <= b.inner.max_priority_fee_per_gas->0),
        base_fee <= higher_base_fee,
    ensures
        tip(a, base_fee).rank() <= tip(b, base_fee).rank(),
        tip(a, higher_base_fee).rank() <= tip(a, base_fee).rank(),
{
}

/// Of two transactions, the one that pays more is included before the other and evicted after it.
/// Of two that pay the same, it is the one that was submitted first. Otherwise neither goes first.
pub proof fn law_who_goes_first(a: PendingTransaction, b: PendingTransaction)
    ensures
        a.priority.rank() > b.priority.rank() ==> a.better(b) && b.worse(a) && !b.better(a)
            && !a.worse(b) && !a.ties(b),
        a.priority.rank() == b.priority.rank() && a.submission_id < b.submission_id ==> a.better(b)
            && b.worse(a) && !b.better(a) && !a.worse(b) && !a.ties(b),
        a.priority.rank() == b.priority.rank() && a.submission_id == b.submission_id ==> a.ties(b)
            && !a.better(b) && !a.worse(b),
{
}

/// A limit on the size of a response is exceeded only by what is larger, and no limit by nothing.
pub proof fn law_response_limit(limit: usize, size: int)
    ensures
        GetPooledTransactionLimit::ResponseSizeSoftLimit(limit).spec_exceeds(size) <==> size > limit,
        !GetPooledTransactionLimit::Unlimited.spec_exceeds(size),
{
}

} // verus!
