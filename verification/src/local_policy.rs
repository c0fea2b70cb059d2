//! Rules that a node adds to the admission of transactions for itself.
use crate::error::InvalidPoolTransactionError;
use crate::primitives::U256;
use crate::transaction::{TempoPooledTransaction, TransactionOrigin};
use vstd::prelude::*;

verus! {

/// Maximum length of an encoded transaction that comes from outside: 128 KiB.
pub const MAX_EXTERNAL_TX_ENCODED_LEN: usize = 131_072;

/// Why the rules of the node refuse a transaction.
#[derive(Debug, Clone, Copy, PartialEq, Eq, Structural)]
pub enum ProgrammaticPoolError {
    /// The account of the sender could not be read.
    SenderStateUnavailable,
    /// The account of the sender holds nothing.
    ZeroBalanceSender,
}

impl ProgrammaticPoolError {
    /// Returns `false`: these are local rules, not malformed data that a peer should be penalized
    /// for.
    pub fn is_bad_transaction(&self) -> (r: bool)
        ensures
            !r,
    {
        false
    }
}

/// A transaction from outside is longer than the node takes.
pub open spec fn too_long(origin: TransactionOrigin, tx: TempoPooledTransaction) -> bool {
    origin == TransactionOrigin::External && tx.inner.encoded_length > MAX_EXTERNAL_TX_ENCODED_LEN
}

/// Refuses a transaction from outside that is longer than the node takes.
pub fn check_stateless(origin: TransactionOrigin, tx: &TempoPooledTransaction) -> (r: Result<
    (),
    InvalidPoolTransactionError,
>)
    ensures
        r == (if too_long(origin, *tx) {
            Err::<(), InvalidPoolTransactionError>(
                InvalidPoolTransactionError::OversizedData {
                    size: tx.inner.encoded_length,
                    limit: MAX_EXTERNAL_TX_ENCODED_LEN,
                },
            )
        } else {
            Ok(())
        }),
{
    let size: usize = tx.encoded_length();
    if matches!(origin, TransactionOrigin::External) && size > MAX_EXTERNAL_TX_ENCODED_LEN {
        return Err(
            InvalidPoolTransactionError::OversizedData { size, limit: MAX_EXTERNAL_TX_ENCODED_LEN },
        );
    }
    Ok(())
}

/// Refuses a sender whose account holds nothing or could not be read. An account that does not
/// exist holds nothing.
///
/// `balance` is what was read of the account, if it could be read, and of its balance, if the
/// account exists.
pub fn check_stateful(balance: Option<Option<U256>>) -> (r: Result<(), ProgrammaticPoolError>)
    ensures
        r == (match balance {
            None => Err::<(), ProgrammaticPoolError>(ProgrammaticPoolError::SenderStateUnavailable),
            Some(None) => Err(ProgrammaticPoolError::ZeroBalanceSender),
            Some(Some(amount)) => if amount@ == 0 {
                Err(ProgrammaticPoolError::ZeroBalanceSender)
            } else {
                Ok(())
            },
        }),
{
    match balance {
        None => Err(ProgrammaticPoolError::SenderStateUnavailable),
        Some(None) => Err(ProgrammaticPoolError::ZeroBalanceSender),
        Some(Some(amount)) => {
            if amount.is_zero() {
                Err(ProgrammaticPoolError::ZeroBalanceSender)
            } else {
                Ok(())
            }
        },
    }
}

/// A transaction from outside is taken exactly if it is no longer than 128 kibibytes.
pub proof fn law_external_length(tx: TempoPooledTransaction)
    ensures
        too_long(TransactionOrigin::External, tx) <==> tx.inner.encoded_length > 128 * 1024,
{
}

/// The length of a transaction that the node itself or a private peer submits does not matter.
pub proof fn law_only_external_length_is_limited(origin: TransactionOrigin, tx: TempoPooledTransaction)
    requires
        origin != TransactionOrigin::External,
    ensures
        !too_long(origin, tx),
{
}

} // verus!
