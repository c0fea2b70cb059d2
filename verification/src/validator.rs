//! The decisions of transaction validation.
//!
//! What only the state and the execution environment can tell (whether a transaction executes,
//! whether the fee can be swapped, what the inner validator finds, what nonce the chain holds) is
//! handed in, one answer after the other.
use crate::error::{
    EVMError, FeePaymentError, InvalidPoolTransactionError, InvalidTransaction,
    TempoInvalidTransaction, TempoPoolTransactionError,
};
use crate::hardfork::TempoHardfork;
use crate::limits::{checked, ensure_aa_field_limits, limits_breach};
use crate::ordered::OrdKey;
use crate::pending::InvalidTransactionError;
use crate::primitives::{lemma_word, word, Address, TxHash, B256, U256};
use crate::transaction::{TempoPooledTransaction, TempoTransaction};
use vstd::prelude::*;

verus! {

/// A transaction must expire more than this many seconds after the tip, so that it does not expire
/// at peers with a slightly newer tip.
pub const AA_VALID_BEFORE_MIN_SECS: u64 = 3;

/// Default maximum number of authorizations in the authorization list of a transaction.
pub const DEFAULT_MAX_TEMPO_AUTHORIZATIONS: usize = 16;

/// Default maximum number of seconds until a transaction becomes valid: as long as queued
/// transactions are kept.
pub const DEFAULT_AA_VALID_AFTER_MAX_SECS: u64 = 120;

/// What the execution environment found out about a valid transaction.
#[derive(Debug, Clone, Copy, PartialEq, Eq, Structural)]
pub struct ValidationContext {
    /// The fee token.
    pub fee_token: Address,
    /// When the keychain key expires, if the transaction is signed by one that does.
    pub key_expiry: Option<u64>,
}

/// Why a validation did not come to an end.
#[derive(Debug, Clone)]
pub enum ValidationFailure<E> {
    /// The execution environment failed.
    Evm(EVMError<E>),
    /// The state could not be read.
    State(E),
}

/// Why a transaction does not pass validation.
#[derive(Debug, Clone)]
pub enum Refusal<E> {
    /// The transaction is invalid.
    Invalid(InvalidPoolTransactionError),
    /// The validation did not come to an end.
    Failed(ValidationFailure<E>),
}

/// What the inner validator finds out about a valid transaction.
#[derive(Debug, Clone)]
pub struct ValidTransaction {
    /// The balance of the sender.
    pub balance: U256,
    /// The nonce of the account.
    pub state_nonce: u64,
    /// The hash of the code of the sender, if it has any.
    pub bytecode_hash: Option<B256>,
    /// Whether the transaction may be propagated.
    pub propagate: bool,
    /// The accounts that authorize a change of their code, if there are any.
    pub authorities: Option<Vec<Address>>,
}

/// The answer of the inner validator.
#[derive(Debug, Clone)]
pub enum InnerOutcome<E> {
    /// The transaction is valid.
    Valid(ValidTransaction),
    /// The transaction is invalid.
    Invalid(InvalidPoolTransactionError),
    /// The validation did not come to an end.
    Failed(E),
}

/// The outcome of a validation.
#[derive(Debug, Clone)]
pub enum TransactionValidationOutcome<E> {
    /// The transaction is valid.
    Valid {
        /// What was found out about it.
        valid: ValidTransaction,
        /// The transaction.
        transaction: TempoPooledTransaction,
    },
    /// The transaction is invalid.
    Invalid(TempoPooledTransaction, InvalidPoolTransactionError),
    /// The validation of the transaction with this hash did not come to an end.
    Error(TxHash, ValidationFailure<E>),
}

/// Validator for transactions: its limits and what it knows of the tip of the chain.
#[derive(Debug, Clone, Copy, PartialEq, Eq, Structural)]
pub struct TempoTransactionValidator {
    /// Maximum length of an encoded transaction.
    pub max_tx_input_bytes: usize,
    /// Maximum number of seconds until a transaction becomes valid.
    pub aa_valid_after_max_secs: u64,
    /// Maximum number of authorizations of a transaction.
    pub max_tempo_authorizations: usize,
    /// The timestamp of the tip.
    pub tip_timestamp: u64,
    /// The hardfork that is active at the tip.
    pub hardfork: TempoHardfork,
}

/// The sum, or the largest number if it does not fit.
pub open spec fn saturated(a: u64, b: u64) -> u64 {
    if a + b <= u64::MAX {
        (a + b) as u64
    } else {
        u64::MAX
    }
}

/// The invalidity for a reason of this chain.
pub open spec fn other(err: TempoPoolTransactionError) -> InvalidPoolTransactionError {
    InvalidPoolTransactionError::Other(err)
}

/// How a transaction breaks the bounds on the times at which it is valid.
pub open spec fn time_breach(
    v: TempoTransactionValidator,
    tx: TempoTransaction,
    current_time: u64,
) -> Option<TempoPoolTransactionError> {
    let min_allowed = saturated(v.tip_timestamp, AA_VALID_BEFORE_MIN_SECS);
    let max_allowed = saturated(current_time, v.aa_valid_after_max_secs);
    if tx.valid_before is Some && tx.valid_before->0 <= min_allowed {
        Some(
            TempoPoolTransactionError::InvalidValidBefore {
                valid_before: tx.valid_before->0,
                min_allowed,
            },
        )
    } else if tx.valid_after is Some && tx.valid_after->0 > max_allowed {
        Some(
            TempoPoolTransactionError::InvalidValidAfter {
                valid_after: tx.valid_after->0,
                max_allowed,
            },
        )
    } else {
        None
    }
}

/// How a transaction breaks the limit on authorizations.
pub open spec fn authorizations_breach(
    v: TempoTransactionValidator,
    tx: TempoPooledTransaction,
) -> Option<TempoPoolTransactionError> {
    match tx.inner.aa {
        Some(aa) => if aa.tempo_authorization_list@.len() > v.max_tempo_authorizations {
            Some(
                TempoPoolTransactionError::TooManyAuthorizations {
                    count: aa.tempo_authorization_list@.len() as usize,
                    max_allowed: v.max_tempo_authorizations,
                },
            )
        } else {
            None
        },
        None => None,
    }
}

/// Why a transaction is refused before it is looked at any further.
pub open spec fn admission_refusal(
    v: TempoTransactionValidator,
    tx: TempoPooledTransaction,
    current_time: u64,
) -> Option<InvalidPoolTransactionError> {
    if tx.inner.is_system_tx {
        Some(InvalidPoolTransactionError::Consensus(InvalidTransactionError::TxTypeNotSupported))
    } else if tx.inner.encoded_length > v.max_tx_input_bytes {
        Some(
            InvalidPoolTransactionError::OversizedData {
                size: tx.inner.encoded_length,
                limit: v.max_tx_input_bytes,
            },
        )
    } else if authorizations_breach(v, tx) is Some {
        Some(other(authorizations_breach(v, tx)->0))
    } else if limits_breach(tx) is Some {
        Some(other(limits_breach(tx)->0))
    } else {
        match tx.inner.aa {
            Some(aa) => match time_breach(v, aa, current_time) {
                Some(err) => Some(other(err)),
                None => None,
            },
            None => None,
        }
    }
}

/// How an error of the execution environment is answered.
pub open spec fn evm_refusal<E>(err: EVMError<E>) -> Refusal<E> {
    match err {
        EVMError::Transaction(err) => Refusal::Invalid(
            match err {
                TempoInvalidTransaction::EthInvalidTransaction(
                    InvalidTransaction::LackOfFundForMaxFee { fee, balance },
                ) => InvalidPoolTransactionError::Consensus(
                    InvalidTransactionError::InsufficientFunds { got: balance, expected: fee },
                ),
                err => other(TempoPoolTransactionError::Evm(err)),
            },
        ),
        _ => Refusal::Failed(ValidationFailure::Evm(err)),
    }
}

/// Why a transaction that executes is refused: its key expires too soon.
pub open spec fn key_refusal(
    v: TempoTransactionValidator,
    context: ValidationContext,
) -> Option<InvalidPoolTransactionError> {
    let min_allowed = saturated(v.tip_timestamp, AA_VALID_BEFORE_MIN_SECS);
    match context.key_expiry {
        Some(expiry) => if expiry <= min_allowed {
            Some(other(TempoPoolTransactionError::AccessKeyExpired { expiry, min_allowed }))
        } else {
            None
        },
        None => None,
    }
}

/// The transaction with the fee token that it resolved to, unless one was set before.
pub open spec fn with_fee_token(tx: TempoPooledTransaction, fee_token: Address) ->
    TempoPooledTransaction {
    TempoPooledTransaction {
        resolved_fee_token: match tx.resolved_fee_token {
            Some(first) => Some(first),
            None => Some(fee_token),
        },
        ..tx
    }
}

/// The transaction with the expiry of its key, unless one was set before.
pub open spec fn with_key_expiry(tx: TempoPooledTransaction, expiry: Option<u64>) ->
    TempoPooledTransaction {
    match expiry {
        Some(expiry) => TempoPooledTransaction {
            key_expiry: match tx.key_expiry {
                Some(first) => Some(first),
                None => Some(Some(expiry)),
            },
            ..tx
        },
        None => tx,
    }
}

/// The transaction with what the execution environment found out about it.
pub open spec fn with_context(
    v: TempoTransactionValidator,
    tx: TempoPooledTransaction,
    context: ValidationContext,
) -> TempoPooledTransaction {
    let resolved = with_fee_token(tx, context.fee_token);
    if key_refusal(v, context) is Some {
        resolved
    } else {
        with_key_expiry(resolved, context.key_expiry)
    }
}

/// How it is answered whether the fee can be swapped.
pub open spec fn liquidity_refusal<E>(fee: U256, liquid: Result<bool, E>) -> Option<Refusal<E>> {
    match liquid {
        Ok(true) => None,
        Ok(false) => Some(
            Refusal::Invalid(
                other(
                    TempoPoolTransactionError::Evm(
                        TempoInvalidTransaction::CollectFeePreTx(
                            FeePaymentError::InsufficientAmmLiquidity { fee },
                        ),
                    ),
                ),
            ),
        ),
        Err(err) => Some(Refusal::Failed(ValidationFailure::State(err))),
    }
}

/// The nonce of the transaction is counted by the chain under its nonce key: the key is neither
/// that of the account nor, once such transactions exist, the one that marks expiring nonces.
pub open spec fn has_keyed_nonce(
    v: TempoTransactionValidator,
    tx: TempoPooledTransaction,
) -> bool {
    tx.spec_is_aa_2d() && !(v.hardfork.spec_is_t1() && tx.spec_is_expiring_nonce())
}

/// The nonce key of the transaction is reserved for subblock transactions.
pub open spec fn is_reserved(tx: TempoPooledTransaction) -> bool {
    match tx.inner.aa {
        Some(aa) => aa.nonce_key@ != 0 && aa.has_subblock_prefix,
        None => false,
    }
}

/// Why a transaction is refused for its nonce key and nonce, given the nonce that the chain holds
/// under its key.
pub open spec fn nonce_refusal<E>(
    v: TempoTransactionValidator,
    tx: TempoPooledTransaction,
    state_nonce: Result<u64, E>,
) -> Option<Refusal<E>> {
    if is_reserved(tx) {
        Some(Refusal::Invalid(other(TempoPoolTransactionError::SubblockNonceKey)))
    } else if has_keyed_nonce(v, tx) {
        match state_nonce {
            Ok(state) => if tx.inner.nonce < state {
                Some(
                    Refusal::Invalid(
                        InvalidPoolTransactionError::Consensus(
                            InvalidTransactionError::NonceNotConsistent {
                                tx: tx.inner.nonce,
                                state,
                            },
                        ),
                    ),
                )
            } else {
                None
            },
            Err(err) => Some(Refusal::Failed(ValidationFailure::State(err))),
        }
    } else {
        None
    }
}

/// The authorities that could be recovered.
pub open spec fn recovered(list: Seq<Option<Address>>) -> Seq<Address>
    decreases list.len(),
{
    if list.len() == 0 {
        Seq::empty()
    } else {
        match list.last() {
            Some(authority) => recovered(list.drop_last()).push(authority),
            None => recovered(list.drop_last()),
        }
    }
}

/// The list in a vector, if there is one.
pub open spec fn listed(authorities: Option<Vec<Address>>) -> Option<Seq<Address>> {
    match authorities {
        Some(list) => Some(list@),
        None => None,
    }
}

/// The authorities that the inner validator found, followed by those of the transaction itself.
pub open spec fn all_authorities(
    found: Option<Seq<Address>>,
    tx: TempoPooledTransaction,
) -> Option<Seq<Address>> {
    match tx.inner.aa {
        Some(aa) => {
            let own = recovered(aa.tempo_authorization_list@);
            if own.len() == 0 {
                found
            } else {
                match found {
                    Some(found) => Some(found + own),
                    None => Some(own),
                }
            }
        },
        None => found,
    }
}

impl TempoTransactionValidator {
    /// Creates a validator for the tip of the given timestamp and hardfork.
    pub fn new(
        max_tx_input_bytes: usize,
        aa_valid_after_max_secs: u64,
        max_tempo_authorizations: usize,
        tip_timestamp: u64,
        hardfork: TempoHardfork,
    ) -> (r: Self)
        ensures
            r.max_tx_input_bytes == max_tx_input_bytes,
            r.aa_valid_after_max_secs == aa_valid_after_max_secs,
            r.max_tempo_authorizations == max_tempo_authorizations,
            r.tip_timestamp == tip_timestamp,
            r.hardfork == hardfork,
    {
        TempoTransactionValidator {
            max_tx_input_bytes,
            aa_valid_after_max_secs,
            max_tempo_authorizations,
            tip_timestamp,
            hardfork,
        }
    }

    /// Takes note of a new tip of the chain.
    pub fn on_new_head_block(&mut self, timestamp: u64, hardfork: TempoHardfork)
        ensures
            *final(self) == (TempoTransactionValidator {
                tip_timestamp: timestamp,
                hardfork,
                ..*old(self)
            }),
    {
        self.tip_timestamp = timestamp;
        self.hardfork = hardfork;
    }

    /// Checks the times at which a transaction is valid.
    ///
    /// These bounds are stricter than those of the execution environment: the transaction must not
    /// expire too soon after the tip, and must not become valid too far in the future of the clock.
    pub fn ensure_pool_time_bounds(&self, tx: &TempoTransaction, current_time: u64) -> (r: Result<
        (),
        TempoPoolTransactionError,
    >)
        ensures
            r == checked(time_breach(*self, *tx, current_time)),
    {
        match tx.valid_before {
            Some(valid_before) => {
                let min_allowed: u64 = self.tip_timestamp.saturating_add(AA_VALID_BEFORE_MIN_SECS);
                if valid_before <= min_allowed {
                    return Err(
                        TempoPoolTransactionError::InvalidValidBefore { valid_before, min_allowed },
                    );
                }
            },
            None => {},
        }
        match tx.valid_after {
            Some(valid_after) => {
                let max_allowed: u64 = current_time.saturating_add(self.aa_valid_after_max_secs);
                if valid_after > max_allowed {
                    return Err(
                        TempoPoolTransactionError::InvalidValidAfter { valid_after, max_allowed },
                    );
                }
            },
            None => {},
        }
        Ok(())
    }

    /// Validates that a transaction does not exceed the maximum authorization list size.
    pub fn ensure_authorization_list_size(&self, transaction: &TempoPooledTransaction) -> (r:
        Result<(), TempoPoolTransactionError>)
        ensures
            r == checked(authorizations_breach(*self, *transaction)),
    {
        match &transaction.inner.aa {
            Some(aa) => {
                let count: usize = aa.tempo_authorization_list.len();
                if count > self.max_tempo_authorizations {
                    return Err(
                        TempoPoolTransactionError::TooManyAuthorizations {
                            count,
                            max_allowed: self.max_tempo_authorizations,
                        },
                    );
                }
                Ok(())
            },
            None => Ok(()),
        }
    }

    /// Checks what can be checked of a transaction alone, before anything expensive.
    pub fn check_admission(&self, transaction: &TempoPooledTransaction, current_time: u64) -> (r: Result<
        (),
        InvalidPoolTransactionError,
    >)
        ensures
            match admission_refusal(*self, *transaction, current_time) {
                Some(err) => r == Err::<(), InvalidPoolTransactionError>(err),
                None => r is Ok,
            },
    {
        if transaction.inner.is_system_tx {
            return Err(
                InvalidPoolTransactionError::Consensus(InvalidTransactionError::TxTypeNotSupported),
            );
        }
        let size: usize = transaction.encoded_length();
        let limit: usize = self.max_tx_input_bytes;
        if size > limit {
            return Err(InvalidPoolTransactionError::OversizedData { size, limit });
        }
        match self.ensure_authorization_list_size(transaction) {
            Ok(()) => {},
            Err(err) => {
                return Err(InvalidPoolTransactionError::Other(err));
            },
        }
        match ensure_aa_field_limits(transaction) {
            Ok(()) => {},
            Err(err) => {
                return Err(InvalidPoolTransactionError::Other(err));
            },
        }
        match &transaction.inner.aa {
            Some(aa) => match self.ensure_pool_time_bounds(aa, current_time) {
                Ok(()) => Ok(()),
                Err(err) => Err(InvalidPoolTransactionError::Other(err)),
            },
            None => Ok(()),
        }
    }

    /// Takes the answer of the execution environment, and caches what it found out in the
    /// transaction. Returns the fee, and the token in which it is to be paid.
    pub fn on_evm_validation<E>(
        &self,
        transaction: &mut TempoPooledTransaction,
        result: Result<ValidationContext, EVMError<E>>,
    ) -> (r: Result<(Address, U256), Refusal<E>>)
        ensures
            match result {
                Ok(context) => {
                    &&& *final(transaction) == with_context(*self, *old(transaction), context)
                    &&& match key_refusal(*self, context) {
                        Some(err) => r == Err::<(Address, U256), Refusal<E>>(
                            Refusal::Invalid(err),
                        ),
                        None => r == Ok::<(Address, U256), Refusal<E>>(
                            (context.fee_token, word(old(transaction).spec_fee_token_cost())),
                        ),
                    }
                },
                Err(err) => {
                    &&& *final(transaction) == *old(transaction)
                    &&& r == Err::<(Address, U256), Refusal<E>>(evm_refusal(err))
                },
            },
    {
        let context: ValidationContext = match result {
            Ok(context) => context,
            Err(err) => {
                return Err(
                    match err {
                        EVMError::Transaction(err) => Refusal::Invalid(
                            match err {
                                TempoInvalidTransaction::EthInvalidTransaction(
                                    InvalidTransaction::LackOfFundForMaxFee { fee, balance },
                                ) => InvalidPoolTransactionError::Consensus(
                                    InvalidTransactionError::InsufficientFunds {
                                        got: balance,
                                        expected: fee,
                                    },
                                ),
                                err => InvalidPoolTransactionError::Other(
                                    TempoPoolTransactionError::Evm(err),
                                ),
                            },
                        ),
                        err => Refusal::Failed(ValidationFailure::Evm(err)),
                    },
                );
            },
        };
        transaction.set_resolved_fee_token(context.fee_token);
        match context.key_expiry {
            Some(expiry) => {
                let min_allowed: u64 = self.tip_timestamp.saturating_add(AA_VALID_BEFORE_MIN_SECS);
                if expiry <= min_allowed {
                    return Err(
                        Refusal::Invalid(
                            InvalidPoolTransactionError::Other(
                                TempoPoolTransactionError::AccessKeyExpired { expiry, min_allowed },
                            ),
                        ),
                    );
                }
                transaction.set_key_expiry(Some(expiry));
            },
            None => {},
        }
        let fee = transaction.fee_token_cost();
        proof {
            lemma_word(fee@);
            fee.ord_injective(word(fee@));
        }
        Ok((context.fee_token, fee))
    }

    /// Takes the answer whether the fee can be swapped for the token of a validator.
    pub fn on_liquidity<E>(&self, fee: U256, liquid: Result<bool, E>) -> (r: Result<
        (),
        Refusal<E>,
    >)
        ensures
            match liquidity_refusal(fee, liquid) {
                Some(refusal) => r == Err::<(), Refusal<E>>(refusal),
                None => r is Ok,
            },
    {
        match liquid {
            Ok(liquid) => {
                if liquid {
                    Ok(())
                } else {
                    Err(
                        Refusal::Invalid(
                            InvalidPoolTransactionError::Other(
                                TempoPoolTransactionError::Evm(
                                    TempoInvalidTransaction::CollectFeePreTx(
                                        FeePaymentError::InsufficientAmmLiquidity { fee },
                                    ),
                                ),
                            ),
                        ),
                    )
                }
            },
            Err(err) => Err(Refusal::Failed(ValidationFailure::State(err))),
        }
    }

    /// Returns `true` if the nonce of the transaction is counted by the chain under its nonce key.
    pub fn needs_keyed_nonce(&self, transaction: &TempoPooledTransaction) -> (r: bool)
        ensures
            r == has_keyed_nonce(*self, *transaction),
    {
        transaction.is_aa_2d() && !(self.hardfork.is_t1() && transaction.is_expiring_nonce())
    }

    /// Returns `true` if the nonce key of the transaction is reserved for subblock transactions.
    fn is_reserved_key(&self, transaction: &TempoPooledTransaction) -> (r: bool)
        ensures
            r == is_reserved(*transaction),
    {
        match &transaction.inner.aa {
            Some(aa) => !aa.nonce_key.is_zero() && aa.has_subblock_prefix,
            None => false,
        }
    }

    /// Checks the nonce key and the nonce of a transaction against the nonce that the chain holds
    /// under its key, which is looked at only where the transaction has such a nonce.
    pub fn on_keyed_nonce<E>(
        &self,
        transaction: &TempoPooledTransaction,
        state_nonce: Result<u64, E>,
    ) -> (r: Result<Option<u64>, Refusal<E>>)
        ensures
            match nonce_refusal(*self, *transaction, state_nonce) {
                Some(refusal) => r == Err::<Option<u64>, Refusal<E>>(refusal),
                None => r == Ok::<Option<u64>, Refusal<E>>(
                    if has_keyed_nonce(*self, *transaction) {
                        Some(state_nonce->Ok_0)
                    } else {
                        None
                    },
                ),
            },
    {
        if self.is_reserved_key(transaction) {
            return Err(
                Refusal::Invalid(
                    InvalidPoolTransactionError::Other(TempoPoolTransactionError::SubblockNonceKey),
                ),
            );
        }
        if !self.needs_keyed_nonce(transaction) {
            return Ok(None);
        }
        match state_nonce {
            Ok(state) => {
                let tx: u64 = transaction.nonce();
                if tx < state {
                    Err(
                        Refusal::Invalid(
                            InvalidPoolTransactionError::Consensus(
                                InvalidTransactionError::NonceNotConsistent { tx, state },
                            ),
                        ),
                    )
                } else {
                    Ok(Some(state))
                }
            },
            Err(err) => Err(Refusal::Failed(ValidationFailure::State(err))),
        }
    }

    /// Adds the authorities of a transaction to those that the inner validator found.
    pub fn with_authorities(
        &self,
        transaction: &TempoPooledTransaction,
        found: Option<Vec<Address>>,
    ) -> (r: Option<Vec<Address>>)
        ensures
            listed(r) == all_authorities(listed(found), *transaction),
    {
        let list: &Vec<Option<Address>> = match &transaction.inner.aa {
            Some(aa) => &aa.tempo_authorization_list,
            None => {
                return found;
            },
        };
        let mut own: Vec<Address> = Vec::new();
        let mut i: usize = 0;
        assert(list@.take(0) =~= Seq::empty());
        while i < list.len()
            invariant
                i <= list@.len(),
                own@ == recovered(list@.take(i as int)),
            decreases list@.len() - i,
        {
            proof {
                assert(list@.take(i + 1).drop_last() =~= list@.take(i as int));
            }
            match list[i] {
                Some(authority) => {
                    own.push(authority);
                },
                None => {},
            }
            i = i + 1;
        }
        assert(list@.take(i as int) =~= list@);
        if own.len() == 0 {
            return found;
        }
        match found {
            Some(mut all) => {
                all.append(&mut own);
                Some(all)
            },
            None => Some(own),
        }
    }
}

/// What the outside has to say about a transaction.
#[derive(Debug)]
pub struct Replies<E> {
    /// What the execution environment found out.
    pub evm: Result<ValidationContext, EVMError<E>>,
    /// Whether the fee can be swapped for the token of a validator.
    pub liquid: Result<bool, E>,
    /// What the inner validator found out.
    pub inner: InnerOutcome<E>,
    /// The nonce that the chain holds under the nonce key of the transaction.
    pub keyed_nonce: Result<u64, E>,
}

/// Why a transaction does not pass validation. The checks come in this order: the transaction
/// alone, the execution environment, the expiry of the key, the liquidity for the fee, the inner
/// validator, the nonce key.
pub open spec fn refusal<E>(
    v: TempoTransactionValidator,
    tx: TempoPooledTransaction,
    current_time: u64,
    replies: Replies<E>,
) -> Option<Refusal<E>> {
    if admission_refusal(v, tx, current_time) is Some {
        Some(Refusal::Invalid(admission_refusal(v, tx, current_time)->0))
    } else {
        match replies.evm {
            Err(err) => Some(evm_refusal(err)),
            Ok(context) => if key_refusal(v, context) is Some {
                Some(Refusal::Invalid(key_refusal(v, context)->0))
            } else if liquidity_refusal(word(tx.spec_fee_token_cost()), replies.liquid) is Some {
                liquidity_refusal(word(tx.spec_fee_token_cost()), replies.liquid)
            } else {
                match replies.inner {
                    InnerOutcome::Invalid(err) => Some(Refusal::Invalid(err)),
                    InnerOutcome::Failed(err) => Some(
                        Refusal::Failed(ValidationFailure::State(err)),
                    ),
                    InnerOutcome::Valid(_) => nonce_refusal(v, tx, replies.keyed_nonce),
                }
            },
        }
    }
}

/// The transaction as the validation hands it back.
pub open spec fn handed_back<E>(
    v: TempoTransactionValidator,
    tx: TempoPooledTransaction,
    current_time: u64,
    replies: Replies<E>,
) -> TempoPooledTransaction {
    if admission_refusal(v, tx, current_time) is Some || replies.evm is Err {
        tx
    } else {
        with_context(v, tx, replies.evm->Ok_0)
    }
}

/// An outcome says that a transaction is refused for this reason.
pub open spec fn refuses<E>(
    outcome: TransactionValidationOutcome<E>,
    tx: TempoPooledTransaction,
    reason: Refusal<E>,
) -> bool {
    match reason {
        Refusal::Invalid(err) => outcome == TransactionValidationOutcome::<E>::Invalid(tx, err),
        Refusal::Failed(err) => outcome == TransactionValidationOutcome::<E>::Error(
            tx.inner.hash,
            err,
        ),
    }
}

/// The outcome of a validation, given what the outside has to say about the transaction.
pub open spec fn validated<E>(
    v: TempoTransactionValidator,
    transaction: TempoPooledTransaction,
    current_time: u64,
    replies: Replies<E>,
    outcome: TransactionValidationOutcome<E>,
) -> bool {
    match refusal(v, transaction, current_time, replies) {
        Some(reason) => refuses(
            outcome,
            handed_back(v, transaction, current_time, replies),
            reason,
        ),
        None => {
            &&& outcome is Valid
            &&& outcome->transaction == handed_back(v, transaction, current_time, replies)
            &&& replies.inner is Valid
            &&& outcome->valid.balance == replies.inner->Valid_0.balance
            &&& outcome->valid.bytecode_hash == replies.inner->Valid_0.bytecode_hash
            &&& outcome->valid.propagate == replies.inner->Valid_0.propagate
            &&& outcome->valid.state_nonce == (if has_keyed_nonce(v, transaction) {
                replies.keyed_nonce->Ok_0
            } else {
                replies.inner->Valid_0.state_nonce
            })
            &&& listed(outcome->valid.authorities) == all_authorities(
                listed(replies.inner->Valid_0.authorities),
                transaction,
            )
        },
    }
}

/// The replies come from the outside as far as they are asked for: each only if nothing before it
/// refuses the transaction, and the nonce only if the chain counts it under a key that is not
/// reserved.
pub open spec fn asked<E, V, L, I, N>(
    v: TempoTransactionValidator,
    tx: TempoPooledTransaction,
    current_time: u64,
    replies: Replies<E>,
    evm: V,
    liquid: L,
    inner: I,
    keyed_nonce: N,
) -> bool where
    V: FnOnce(&TempoPooledTransaction) -> Result<ValidationContext, EVMError<E>>,
    L: FnOnce(Address, U256) -> Result<bool, E>,
    I: FnOnce(&TempoPooledTransaction) -> InnerOutcome<E>,
    N: FnOnce(&TempoPooledTransaction) -> Result<u64, E>,
 {
    admission_refusal(v, tx, current_time) is None ==> {
        let known = handed_back(v, tx, current_time, replies);
        let fee = word(tx.spec_fee_token_cost());
        let executes = replies.evm is Ok && key_refusal(v, replies.evm->Ok_0) is None;
        let paid = executes && liquidity_refusal(fee, replies.liquid) is None;
        &&& evm.ensures((&tx,), replies.evm)
        &&& executes ==> liquid.ensures((replies.evm->Ok_0.fee_token, fee), replies.liquid)
        &&& paid ==> inner.ensures((&known,), replies.inner)
        &&& paid && replies.inner is Valid && !is_reserved(tx) && has_keyed_nonce(v, tx)
            ==> keyed_nonce.ensures((&known,), replies.keyed_nonce)
    }
}

impl TempoTransactionValidator {
    /// Validates a transaction, asking the outside step by step: the execution environment, whether
    /// the fee can be swapped, the inner validator, and the nonce that the chain holds under the
    /// nonce key. Nothing is asked once the transaction is refused.
    pub fn validate_with<E, V, L, I, N>(
        &self,
        transaction: TempoPooledTransaction,
        current_time: u64,
        evm: V,
        liquid: L,
        inner: I,
        keyed_nonce: N,
    ) -> (r: TransactionValidationOutcome<E>) where
        V: FnOnce(&TempoPooledTransaction) -> Result<ValidationContext, EVMError<E>>,
        L: FnOnce(Address, U256) -> Result<bool, E>,
        I: FnOnce(&TempoPooledTransaction) -> InnerOutcome<E>,
        N: FnOnce(&TempoPooledTransaction) -> Result<u64, E>,

        requires
            forall|tx: TempoPooledTransaction| #[trigger] evm.requires((&tx,)),
            forall|token: Address, fee: U256| #[trigger] liquid.requires((token, fee)),
            forall|tx: TempoPooledTransaction| #[trigger] inner.requires((&tx,)),
            forall|tx: TempoPooledTransaction| #[trigger] keyed_nonce.requires((&tx,)),
        ensures
            exists|replies: Replies<E>| #[trigger]
                validated(*self, transaction, current_time, replies, r) && asked(
                    *self,
                    transaction,
                    current_time,
                    replies,
                    evm,
                    liquid,
                    inner,
                    keyed_nonce,
                ),
    {
        let ghost start = transaction;
        let ghost mut replies: Replies<E> = arbitrary();
        let mut transaction = transaction;
        match self.check_admission(&transaction, current_time) {
            Ok(()) => {},
            Err(err) => {
                let r = TransactionValidationOutcome::Invalid(transaction, err);
                assert(validated(*self, start, current_time, replies, r));
                return r;
            },
        }
        let found = evm(&transaction);
        proof {
            replies = Replies { evm: found, ..replies };
        }
        let (token, fee) = match self.on_evm_validation(&mut transaction, found) {
            Ok(found) => found,
            Err(reason) => {
                let r = refused(transaction, reason);
                assert(validated(*self, start, current_time, replies, r));
                return r;
            },
        };
        let swap = liquid(token, fee);
        proof {
            replies = Replies { liquid: swap, ..replies };
        }
        match self.on_liquidity(fee, swap) {
            Ok(()) => {},
            Err(reason) => {
                let r = refused(transaction, reason);
                assert(validated(*self, start, current_time, replies, r));
                return r;
            },
        }
        let outcome = inner(&transaction);
        proof {
            replies = Replies { inner: outcome, ..replies };
        }
        let mut valid: ValidTransaction = match outcome {
            InnerOutcome::Valid(valid) => valid,
            InnerOutcome::Invalid(err) => {
                let r = TransactionValidationOutcome::Invalid(transaction, err);
                assert(validated(*self, start, current_time, replies, r));
                return r;
            },
            InnerOutcome::Failed(err) => {
                let r = refused(transaction, Refusal::Failed(ValidationFailure::State(err)));
                assert(validated(*self, start, current_time, replies, r));
                return r;
            },
        };
        valid.authorities = self.with_authorities(&transaction, valid.authorities);
        let state_nonce: Result<u64, E> = if !self.is_reserved_key(&transaction)
            && self.needs_keyed_nonce(&transaction) {
            keyed_nonce(&transaction)
        } else {
            Ok(0)
        };
        proof {
            replies = Replies { keyed_nonce: state_nonce, ..replies };
        }
        match self.on_keyed_nonce(&transaction, state_nonce) {
            Ok(Some(state_nonce)) => {
                valid.state_nonce = state_nonce;
            },
            Ok(None) => {},
            Err(reason) => {
                let r = refused(transaction, reason);
                assert(validated(*self, start, current_time, replies, r));
                return r;
            },
        }
        let r = TransactionValidationOutcome::Valid { valid, transaction };
        assert(validated(*self, start, current_time, replies, r));
        r
    }

    /// Validates a transaction, given what the outside has to say about it. Replies that come after
    /// a refusal are not looked at.
    pub fn validate_one<E>(
        &self,
        transaction: TempoPooledTransaction,
        current_time: u64,
        replies: Replies<E>,
    ) -> (r: TransactionValidationOutcome<E>)
        ensures
            validated(*self, transaction, current_time, replies, r),
    {
        let Replies { evm, liquid, inner, keyed_nonce } = replies;
        let ask_evm = |_tx: &TempoPooledTransaction| -> (found: Result<
            ValidationContext,
            EVMError<E>,
        >)
            ensures
                found == evm,
        {
            evm
        };
        let ask_liquid = |_token: Address, _fee: U256| -> (found: Result<bool, E>)
            ensures
                found == liquid,
        {
            liquid
        };
        let ask_inner = |_tx: &TempoPooledTransaction| -> (found: InnerOutcome<E>)
            ensures
                found == inner,
        {
            inner
        };
        let ask_nonce = |_tx: &TempoPooledTransaction| -> (found: Result<u64, E>)
            ensures
                found == keyed_nonce,
        {
            keyed_nonce
        };
        self.validate_with(transaction, current_time, ask_evm, ask_liquid, ask_inner, ask_nonce)
    }

    /// Validates a transaction, if there is a state to validate it against.
    pub fn validate_transaction<E>(
        &self,
        transaction: TempoPooledTransaction,
        current_time: u64,
        replies: Result<Replies<E>, E>,
    ) -> (r: TransactionValidationOutcome<E>)
        ensures
            match replies {
                Ok(replies) => validated(*self, transaction, current_time, replies, r),
                Err(err) => r == TransactionValidationOutcome::Error(
                    transaction.inner.hash,
                    ValidationFailure::State(err),
                ),
            },
    {
        match replies {
            Ok(replies) => self.validate_one(transaction, current_time, replies),
            Err(err) => TransactionValidationOutcome::Error(
                *transaction.hash(),
                ValidationFailure::State(err),
            ),
        }
    }

    /// Validates transactions one after the other, each with what the outside has to say about
    /// it.
    pub fn validate_transactions<E>(
        &self,
        transactions: Vec<(TempoPooledTransaction, Replies<E>)>,
        current_time: u64,
    ) -> (r: Vec<TransactionValidationOutcome<E>>)
        ensures
            r@.len() == transactions@.len(),
            forall|i: int|
                0 <= i < r@.len() ==> validated(
                    *self,
                    transactions@[i].0,
                    current_time,
                    transactions@[i].1,
                    #[trigger] r@[i],
                ),
    {
        let ghost all = transactions@;
        let mut rest = transactions;
        let mut r: Vec<TransactionValidationOutcome<E>> = Vec::new();
        assert(all.skip(0) =~= all);
        while rest.len() > 0
            invariant
                r@.len() + rest@.len() == all.len(),
                rest@ == all.skip(r@.len() as int),
                forall|i: int|
                    0 <= i < r@.len() ==> validated(
                        *self,
                        all[i].0,
                        current_time,
                        all[i].1,
                        #[trigger] r@[i],
                    ),
            decreases rest@.len(),
        {
            let ghost before = rest@;
            let (transaction, replies) = rest.remove(0);
            assert(before.remove(0) =~= all.skip((r@.len() + 1) as int));
            r.push(self.validate_one(transaction, current_time, replies));
        }
        r
    }

    /// Answers for transactions that there is no state to validate against.
    pub fn unavailable<E: Copy>(&self, transactions: &Vec<TempoPooledTransaction>, err: E) -> (r:
        Vec<TransactionValidationOutcome<E>>)
        ensures
            r@.len() == transactions@.len(),
            forall|i: int|
                0 <= i < r@.len() ==> #[trigger] r@[i] == TransactionValidationOutcome::Error(
                    transactions@[i].inner.hash,
                    ValidationFailure::State(err),
                ),
    {
        let mut r: Vec<TransactionValidationOutcome<E>> = Vec::new();
        let mut i: usize = 0;
        while i < transactions.len()
            invariant
                i <= transactions@.len(),
                r@.len() == i,
                forall|j: int|
                    0 <= j < i ==> #[trigger] r@[j] == TransactionValidationOutcome::Error(
                        transactions@[j].inner.hash,
                        ValidationFailure::State(err),
                    ),
            decreases transactions@.len() - i,
        {
            r.push(
                TransactionValidationOutcome::Error(
                    *transactions[i].hash(),
                    ValidationFailure::State(err),
                ),
            );
            i = i + 1;
        }
        r
    }
}

/// Returns the outcome for a transaction that is refused.
pub fn refused<E>(transaction: TempoPooledTransaction, reason: Refusal<E>) -> (r:
    TransactionValidationOutcome<E>)
    ensures
        refuses(r, transaction, reason),
{
    match reason {
        Refusal::Invalid(err) => TransactionValidationOutcome::Invalid(transaction, err),
        Refusal::Failed(err) => TransactionValidationOutcome::Error(*transaction.hash(), err),
    }
}

/// A transaction that was refused on its own, or that does not execute, is refused whatever else
/// the outside says.
pub proof fn law_refusal_needs_no_more<E>(
    v: TempoTransactionValidator,
    tx: TempoPooledTransaction,
    current_time: u64,
    a: Replies<E>,
    b: Replies<E>,
)
    ensures
        admission_refusal(v, tx, current_time) is Some ==> refusal(v, tx, current_time, a)
            == refusal(v, tx, current_time, b),
        a.evm == b.evm && (a.evm is Err || key_refusal(v, a.evm->Ok_0) is Some) ==> refusal(
            v,
            tx,
            current_time,
            a,
        ) == refusal(v, tx, current_time, b),
{
}

/// A valid transaction expires more than the minimum number of seconds after the tip, as does the
/// key that signed it, and is valid soon enough.
pub proof fn law_valid_lives_long_enough<E>(
    v: TempoTransactionValidator,
    tx: TempoPooledTransaction,
    current_time: u64,
    replies: Replies<E>,
)
    requires
        refusal(v, tx, current_time, replies) is None,
        tx.inner.aa is Some,
    ensures
        tx.inner.aa->0.valid_before is Some ==> tx.inner.aa->0.valid_before->0 > v.tip_timestamp
            + AA_VALID_BEFORE_MIN_SECS,
        replies.evm->Ok_0.key_expiry is Some ==> replies.evm->Ok_0.key_expiry->0 > v.tip_timestamp
            + AA_VALID_BEFORE_MIN_SECS,
        tx.inner.aa->0.valid_after is Some ==> tx.inner.aa->0.valid_after->0 <= current_time
            + v.aa_valid_after_max_secs,
{
}

/// A valid transaction with a nonce key of its own has a nonce that is not used up.
pub proof fn law_valid_nonce_is_fresh<E>(
    v: TempoTransactionValidator,
    tx: TempoPooledTransaction,
    current_time: u64,
    replies: Replies<E>,
)
    requires
        refusal(v, tx, current_time, replies) is None,
        has_keyed_nonce(v, tx),
    ensures
        replies.keyed_nonce is Ok,
        replies.keyed_nonce->Ok_0 <= tx.inner.nonce,
        !is_reserved(tx),
{
}

} // verus!
