//! Why a transaction is refused or halts.
use crate::pending::InvalidTransactionError;
use crate::primitives::{Address, U256};
use vstd::prelude::*;
use vstd::std_specs::convert::FromSpec;

verus! {

/// A transaction that breaks a rule of the execution layer.
#[derive(Debug, Clone, PartialEq, Eq, Hash)]
pub enum InvalidTransaction {
    /// The priority fee is above the maximum fee.
    PriorityFeeGreaterThanMaxFee,
    /// The gas price is below the base fee.
    GasPriceLessThanBasefee,
    /// The gas limit is above that of the block.
    CallerGasLimitMoreThanBlock,
    /// The intrinsic gas is above the gas limit.
    CallGasCostMoreThanGasLimit {
        /// The intrinsic gas.
        initial_gas: u64,
        /// The gas limit.
        gas_limit: u64,
    },
    /// The gas floor is above the gas limit.
    GasFloorMoreThanGasLimit {
        /// The gas floor.
        gas_floor: u64,
        /// The gas limit.
        gas_limit: u64,
    },
    /// The sender has code.
    RejectCallerWithCode,
    /// The sender cannot pay the maximum fee.
    LackOfFundForMaxFee {
        /// The maximum fee.
        fee: U256,
        /// What the sender has.
        balance: U256,
    },
    /// The payment does not fit in a word.
    OverflowPaymentInTransaction,
    /// The nonce cannot be raised any more.
    NonceOverflowInTransaction,
    /// The nonce is above that of the account.
    NonceTooHigh {
        /// The nonce of the transaction.
        tx: u64,
        /// The nonce of the account.
        state: u64,
    },
    /// The nonce is below that of the account.
    NonceTooLow {
        /// The nonce of the transaction.
        tx: u64,
        /// The nonce of the account.
        state: u64,
    },
    /// The init code is too long.
    CreateInitCodeSizeLimit,
    /// The chain identifier is that of another chain.
    InvalidChainId,
    /// The chain identifier is missing.
    MissingChainId,
    /// The gas limit is above the cap for transactions.
    TxGasLimitGreaterThanCap {
        /// The gas limit.
        gas_limit: u64,
        /// The cap.
        cap: u64,
    },
    /// Access lists are not supported.
    AccessListNotSupported,
    /// Blob fees are not supported.
    MaxFeePerBlobGasNotSupported,
    /// Blob hashes are not supported.
    BlobVersionedHashesNotSupported,
    /// The blob gas price of the block is above what the transaction offers.
    BlobGasPriceGreaterThanMax {
        /// The blob gas price of the block.
        block_blob_gas_price: u128,
        /// What the transaction offers.
        tx_max_fee_per_blob_gas: u128,
    },
    /// A blob transaction has no blobs.
    EmptyBlobs,
    /// A blob transaction creates a contract.
    BlobCreateTransaction,
    /// A blob transaction has too many blobs.
    TooManyBlobs {
        /// The maximum number of blobs.
        max: usize,
        /// The number of blobs.
        have: usize,
    },
    /// The version of a blob hash is not supported.
    BlobVersionNotSupported,
    /// Authorization lists are not supported.
    AuthorizationListNotSupported,
    /// An authorization list stands beside fields that it excludes.
    AuthorizationListInvalidFields,
    /// The authorization list is empty.
    EmptyAuthorizationList,
    /// Access-list transactions are not supported.
    Eip2930NotSupported,
    /// Dynamic-fee transactions are not supported.
    Eip1559NotSupported,
    /// Blob transactions are not supported.
    Eip4844NotSupported,
    /// Code-setting transactions are not supported.
    Eip7702NotSupported,
    /// Init-code transactions are not supported.
    Eip7873NotSupported,
    /// An init-code transaction has no target.
    Eip7873MissingTarget,
    /// Any other reason.
    Str(String),
}

impl InvalidTransaction {
    /// The transaction is malformed: no change of state makes it valid.
    pub open spec fn malformed(self) -> bool {
        &&& self !is GasPriceLessThanBasefee
        &&& self !is CallerGasLimitMoreThanBlock
        &&& self !is RejectCallerWithCode
        &&& self !is LackOfFundForMaxFee
        &&& self !is NonceTooHigh
        &&& self !is NonceTooLow
        &&& self !is BlobGasPriceGreaterThanMax
        &&& self !is Str
    }

    /// Returns `true` if the nonce is below that of the account.
    pub fn is_nonce_too_low(&self) -> (r: bool)
        ensures
            r == (*self is NonceTooLow),
    {
        matches!(self, InvalidTransaction::NonceTooLow { .. })
    }
}

/// Why execution halted.
#[derive(Debug, Clone, PartialEq, Eq, Hash)]
pub enum HaltReason {
    /// The gas ran out.
    OutOfGas,
    /// The opcode is unknown.
    OpcodeNotFound,
    /// The designated invalid opcode was reached.
    InvalidFEOpcode,
    /// A jump went to no jump destination.
    InvalidJump,
    /// The feature is not active.
    NotActivated,
    /// The stack was empty.
    StackUnderflow,
    /// The stack was full.
    StackOverflow,
    /// An offset is out of bounds.
    OutOfOffset,
    /// The address of a new contract is taken.
    CreateCollision,
    /// A precompile failed.
    PrecompileError,
    /// A nonce cannot be raised any more.
    NonceOverflow,
    /// The code of a new contract is too long.
    CreateContractSizeLimit,
    /// The code of a new contract starts with the reserved byte.
    CreateContractStartingWithEF,
    /// The init code is too long.
    CreateInitCodeSizeLimit,
    /// A payment does not fit in a word.
    OverflowPayment,
    /// A static call tried to change the state.
    StateChangeDuringStaticCall,
    /// The call is not allowed inside a static call.
    CallNotAllowedInsideStatic,
    /// The funds ran out.
    OutOfFunds,
    /// The calls are nested too deeply.
    CallTooDeep,
}

/// Why a transaction halted: a reason of the execution layer, or the edge case of a subblock
/// transaction that cannot pay its fee.
#[derive(Debug, Clone, PartialEq, Eq, Hash)]
pub enum TempoHaltReason {
    /// A reason of the execution layer.
    Ethereum(HaltReason),
    /// A subblock transaction failed to pay fees.
    SubblockTxFeePayment,
}

impl From<HaltReason> for TempoHaltReason {
    fn from(reason: HaltReason) -> (r: Self) {
        TempoHaltReason::Ethereum(reason)
    }
}

impl vstd::std_specs::convert::FromSpecImpl<HaltReason> for TempoHaltReason {
    open spec fn obeys_from_spec() -> bool {
        true
    }

    open spec fn from_spec(reason: HaltReason) -> TempoHaltReason {
        TempoHaltReason::Ethereum(reason)
    }
}

/// What a halted transaction is answered over the network interface.
#[derive(Debug, Clone, PartialEq, Eq, Hash)]
pub enum HaltAnswer {
    /// The answer that the execution layer gives for the reason and the gas limit.
    Ethereum(HaltReason, u64),
    /// A message of its own.
    EvmCustom(&'static str),
}

impl TempoHaltReason {
    /// Returns what a transaction that halted for this reason is answered.
    pub fn from_evm_halt(self, gas_limit: u64) -> (r: HaltAnswer)
        ensures
            match self {
                TempoHaltReason::Ethereum(reason) => r == HaltAnswer::Ethereum(reason, gas_limit),
                TempoHaltReason::SubblockTxFeePayment => r == HaltAnswer::EvmCustom(
                    "subblock transaction failed to pay fees",
                ),
            },
    {
        match self {
            TempoHaltReason::Ethereum(reason) => HaltAnswer::Ethereum(reason, gas_limit),
            TempoHaltReason::SubblockTxFeePayment => HaltAnswer::EvmCustom(
                "subblock transaction failed to pay fees",
            ),
        }
    }
}

/// How the execution of a transaction ended.
#[derive(Debug, Clone, PartialEq, Eq, Hash)]
pub enum ExecutionResult {
    /// The transaction succeeded.
    Success {
        /// The gas used.
        gas_used: u64,
    },
    /// The transaction was reverted.
    Revert {
        /// The gas used.
        gas_used: u64,
        /// The output of the revert.
        output: Vec<u8>,
    },
    /// The transaction halted.
    Halt {
        /// The gas used.
        gas_used: u64,
        /// Why it halted.
        reason: TempoHaltReason,
    },
}

/// The version of a keychain signature does not fit the hardfork.
#[derive(Debug, Clone, Copy, PartialEq, Eq, Hash, Structural)]
pub enum KeychainVersionError {
    /// A legacy signature is used after it was retired.
    LegacyPostT1C,
    /// A signature of the second version is used before it is active.
    V2BeforeActivation,
}

/// A key authorization is for another chain.
#[derive(Debug, Clone, Copy, PartialEq, Eq, Hash, Structural)]
pub struct KeyAuthorizationChainIdError {
    /// The identifier of this chain.
    pub expected: u64,
    /// The identifier in the key authorization.
    pub got: u64,
}

/// The currency of a token as far as it was read.
#[derive(Debug, Clone, PartialEq, Eq, Hash)]
pub enum Currency {
    /// The currency code.
    Code(Vec<u8>),
    /// A code of this many bytes, too long to be read.
    Oversized(usize),
}

/// Why the fee of a transaction cannot be paid.
#[derive(Debug, Clone, PartialEq, Eq, Hash)]
pub enum FeePaymentError {
    /// The pool of the fee exchange cannot swap the fee token.
    InsufficientAmmLiquidity {
        /// The fee that could not be swapped.
        fee: U256,
    },
    /// The fee payer does not have the fee in the fee token.
    InsufficientFeeTokenBalance {
        /// The fee.
        fee: U256,
        /// What the fee payer has.
        balance: U256,
    },
    /// Any other reason.
    Other(String),
}

/// Why a transaction is invalid: a reason of the execution layer or one of this chain.
#[derive(Debug, Clone, PartialEq, Eq, Hash)]
pub enum TempoInvalidTransaction {
    /// A reason of the execution layer.
    EthInvalidTransaction(InvalidTransaction),
    /// A system transaction must be a call, not a create.
    SystemTransactionMustBeCall,
    /// The execution of a system transaction failed.
    SystemTransactionFailed(Box<ExecutionResult>),
    /// The fee payer could not be recovered from its signature.
    InvalidFeePayerSignature,
    /// The fee payer is the sender.
    SelfSponsoredFeePayer,
    /// The transaction is not valid yet.
    ValidAfter {
        /// The timestamp of the block.
        current: u64,
        /// The timestamp from which on the transaction is valid.
        valid_after: u64,
    },
    /// The transaction has expired.
    ValidBefore {
        /// The timestamp of the block.
        current: u64,
        /// The timestamp from which on the transaction is no longer valid.
        valid_before: u64,
    },
    /// A P256 signature does not verify.
    InvalidP256Signature,
    /// A WebAuthn signature does not verify.
    InvalidWebAuthnSignature {
        /// The reason.
        reason: String,
    },
    /// The nonce manager failed.
    NonceManagerError(String),
    /// A transaction with an expiring nonce lacks its environment.
    ExpiringNonceMissingTxEnv,
    /// A transaction with an expiring nonce lacks an expiry.
    ExpiringNonceMissingValidBefore,
    /// A transaction with an expiring nonce has a nonce other than zero.
    ExpiringNonceNonceNotZero,
    /// A subblock transaction has a fee.
    SubblockTransactionMustHaveZeroFee,
    /// The fee token is not valid.
    InvalidFeeToken(Address),
    /// The fee token is not a TIP-20 token.
    FeeTokenNotTip20 {
        /// The fee token.
        address: Address,
    },
    /// The fee token is not denominated in US dollars.
    FeeTokenNotUsdCurrency {
        /// The fee token.
        address: Address,
        /// Its currency.
        currency: Currency,
    },
    /// The fee token is paused.
    FeeTokenPaused {
        /// The fee token.
        address: Address,
    },
    /// The transaction transfers value.
    ValueTransferNotAllowed,
    /// The account-abstraction transaction transfers value.
    ValueTransferNotAllowedInAATx,
    /// The access key could not be recovered from its signature.
    AccessKeyRecoveryFailed,
    /// An access key tries to authorize another key.
    AccessKeyCannotAuthorizeOtherKeys,
    /// The signer of a key authorization could not be recovered.
    KeyAuthorizationSignatureRecoveryFailed,
    /// A key authorization is not signed by the root account.
    KeyAuthorizationNotSignedByRoot {
        /// The root account.
        expected: Address,
        /// The signer.
        actual: Address,
    },
    /// The expiry of an access key is in the past.
    AccessKeyExpiryInPast {
        /// The expiry.
        expiry: u64,
        /// The timestamp of the block.
        current_timestamp: u64,
    },
    /// The keychain rejects a key authorization.
    KeychainPrecompileError {
        /// The reason.
        reason: String,
    },
    /// The account of a keychain signature is not the sender.
    KeychainUserAddressMismatch {
        /// The account of the signature.
        user_address: Address,
        /// The sender.
        caller: Address,
    },
    /// The keychain does not admit the access key.
    KeychainValidationFailed {
        /// The reason.
        reason: String,
    },
    /// A key authorization is for another chain.
    KeyAuthorizationChainIdMismatch {
        /// The identifier of this chain.
        expected: u64,
        /// The identifier in the key authorization.
        got: u64,
    },
    /// A legacy keychain signature is used after it was retired.
    LegacyKeychainSignature,
    /// A keychain signature of the second version is used before it is active.
    V2KeychainBeforeActivation,
    /// A subblock transaction contains a keychain operation.
    KeychainOpInSubblockTransaction,
    /// The fee cannot be paid.
    CollectFeePreTx(FeePaymentError),
    /// The calls of the transaction break a rule.
    CallsValidation(&'static str),
}

impl TempoInvalidTransaction {
    /// The transaction is malformed, as opposed to one that may become valid as the state
    /// advances.
    pub open spec fn bad(self) -> bool {
        match self {
            TempoInvalidTransaction::EthInvalidTransaction(eth) => eth.malformed(),
            _ => {
                &&& self !is ValidAfter
                &&& self !is ValidBefore
                &&& self !is InvalidFeeToken
                &&& self !is FeeTokenNotTip20
                &&& self !is FeeTokenNotUsdCurrency
                &&& self !is FeeTokenPaused
                &&& self !is AccessKeyExpiryInPast
                &&& self !is KeychainPrecompileError
                &&& self !is KeychainValidationFailed
                &&& self !is CollectFeePreTx
                &&& self !is NonceManagerError
                &&& self !is V2KeychainBeforeActivation
            },
        }
    }

    /// Returns `true` if this error is deterministic: the transaction is inherently malformed and
    /// will never become valid regardless of state changes.
    ///
    /// Returns `false` for state-dependent errors (balance, nonce, expiry, liquidity) that may
    /// resolve as state advances.
    pub fn is_bad_transaction(&self) -> (r: bool)
        ensures
            r == self.bad(),
    {
        match self {
            TempoInvalidTransaction::EthInvalidTransaction(eth) => match eth {
                InvalidTransaction::PriorityFeeGreaterThanMaxFee
                | InvalidTransaction::CallGasCostMoreThanGasLimit { .. }
                | InvalidTransaction::GasFloorMoreThanGasLimit { .. }
                | InvalidTransaction::CreateInitCodeSizeLimit
                | InvalidTransaction::InvalidChainId
                | InvalidTransaction::MissingChainId
                | InvalidTransaction::AccessListNotSupported
                | InvalidTransaction::MaxFeePerBlobGasNotSupported
                | InvalidTransaction::BlobVersionedHashesNotSupported
                | InvalidTransaction::EmptyBlobs
                | InvalidTransaction::BlobCreateTransaction
                | InvalidTransaction::TooManyBlobs { .. }
                | InvalidTransaction::BlobVersionNotSupported
                | InvalidTransaction::AuthorizationListNotSupported
                | InvalidTransaction::AuthorizationListInvalidFields
                | InvalidTransaction::EmptyAuthorizationList
                | InvalidTransaction::Eip2930NotSupported
                | InvalidTransaction::Eip1559NotSupported
                | InvalidTransaction::Eip4844NotSupported
                | InvalidTransaction::Eip7702NotSupported
                | InvalidTransaction::Eip7873NotSupported
                | InvalidTransaction::Eip7873MissingTarget
                | InvalidTransaction::OverflowPaymentInTransaction
                | InvalidTransaction::NonceOverflowInTransaction
                | InvalidTransaction::TxGasLimitGreaterThanCap { .. } => true,
                InvalidTransaction::GasPriceLessThanBasefee
                | InvalidTransaction::CallerGasLimitMoreThanBlock
                | InvalidTransaction::RejectCallerWithCode
                | InvalidTransaction::LackOfFundForMaxFee { .. }
                | InvalidTransaction::NonceTooHigh { .. }
                | InvalidTransaction::NonceTooLow { .. }
                | InvalidTransaction::BlobGasPriceGreaterThanMax { .. }
                | InvalidTransaction::Str(_) => false,
            },
            TempoInvalidTransaction::SystemTransactionMustBeCall
            | TempoInvalidTransaction::SystemTransactionFailed(_)
            | TempoInvalidTransaction::InvalidFeePayerSignature
            | TempoInvalidTransaction::SelfSponsoredFeePayer
            | TempoInvalidTransaction::InvalidP256Signature
            | TempoInvalidTransaction::InvalidWebAuthnSignature { .. }
            | TempoInvalidTransaction::AccessKeyRecoveryFailed
            | TempoInvalidTransaction::AccessKeyCannotAuthorizeOtherKeys
            | TempoInvalidTransaction::KeyAuthorizationSignatureRecoveryFailed
            | TempoInvalidTransaction::KeyAuthorizationNotSignedByRoot { .. }
            | TempoInvalidTransaction::KeychainUserAddressMismatch { .. }
            | TempoInvalidTransaction::KeyAuthorizationChainIdMismatch { .. }
            | TempoInvalidTransaction::ValueTransferNotAllowed
            | TempoInvalidTransaction::ValueTransferNotAllowedInAATx
            | TempoInvalidTransaction::ExpiringNonceMissingTxEnv
            | TempoInvalidTransaction::ExpiringNonceMissingValidBefore
            | TempoInvalidTransaction::ExpiringNonceNonceNotZero
            | TempoInvalidTransaction::SubblockTransactionMustHaveZeroFee
            | TempoInvalidTransaction::KeychainOpInSubblockTransaction
            | TempoInvalidTransaction::LegacyKeychainSignature
            | TempoInvalidTransaction::CallsValidation(_) => true,
            TempoInvalidTransaction::ValidAfter { .. }
            | TempoInvalidTransaction::ValidBefore { .. }
            | TempoInvalidTransaction::InvalidFeeToken(_)
            | TempoInvalidTransaction::FeeTokenNotTip20 { .. }
            | TempoInvalidTransaction::FeeTokenNotUsdCurrency { .. }
            | TempoInvalidTransaction::FeeTokenPaused { .. }
            | TempoInvalidTransaction::AccessKeyExpiryInPast { .. }
            | TempoInvalidTransaction::KeychainPrecompileError { .. }
            | TempoInvalidTransaction::KeychainValidationFailed { .. }
            | TempoInvalidTransaction::CollectFeePreTx(_)
            | TempoInvalidTransaction::NonceManagerError(_)
            | TempoInvalidTransaction::V2KeychainBeforeActivation => false,
        }
    }

    /// Returns `true` if the nonce of the transaction is below that of the account.
    pub fn is_nonce_too_low(&self) -> (r: bool)
        ensures
            r == (*self matches TempoInvalidTransaction::EthInvalidTransaction(eth)
                && eth is NonceTooLow),
    {
        match self {
            TempoInvalidTransaction::EthInvalidTransaction(err) => err.is_nonce_too_low(),
            _ => false,
        }
    }

    /// Returns the reason of the execution layer, if it is one.
    pub fn as_invalid_tx_err(&self) -> (r: Option<&InvalidTransaction>)
        ensures
            match *self {
                TempoInvalidTransaction::EthInvalidTransaction(err) => r == Some(&err),
                _ => r is None,
            },
    {
        match self {
            TempoInvalidTransaction::EthInvalidTransaction(err) => Some(err),
            _ => None,
        }
    }
}

/// Errors are handed on under their own names, with all that they tell.
pub proof fn law_conversions(
    eth: InvalidTransaction,
    fee: FeePaymentError,
    version: KeychainVersionError,
    chain: KeyAuthorizationChainIdError,
    reason: HaltReason,
)
    ensures
        <TempoInvalidTransaction as FromSpec<InvalidTransaction>>::from_spec(eth)
            == TempoInvalidTransaction::EthInvalidTransaction(eth),
        <TempoInvalidTransaction as FromSpec<FeePaymentError>>::from_spec(fee)
            == TempoInvalidTransaction::CollectFeePreTx(fee),
        <TempoInvalidTransaction as FromSpec<KeychainVersionError>>::from_spec(version)
            is LegacyKeychainSignature <==> version is LegacyPostT1C,
        <TempoInvalidTransaction as FromSpec<KeychainVersionError>>::from_spec(version)
            is V2KeychainBeforeActivation <==> version is V2BeforeActivation,
        <TempoInvalidTransaction as FromSpec<KeyAuthorizationChainIdError>>::from_spec(chain)
            is KeyAuthorizationChainIdMismatch,
        <TempoInvalidTransaction as FromSpec<KeyAuthorizationChainIdError>>::from_spec(
            chain,
        )->KeyAuthorizationChainIdMismatch_expected == chain.expected,
        <TempoInvalidTransaction as FromSpec<KeyAuthorizationChainIdError>>::from_spec(chain)->got
            == chain.got,
        <TempoHaltReason as FromSpec<HaltReason>>::from_spec(reason) == TempoHaltReason::Ethereum(
            reason,
        ),
{
}

/// What tells against the sender of a transaction: that it breaks a rule which no change of state
/// lifts.
pub proof fn law_bad_ethereum_errors(err: InvalidTransaction)
    ensures
        TempoInvalidTransaction::EthInvalidTransaction(err).bad() <==> {
            ||| err is PriorityFeeGreaterThanMaxFee
            ||| err is CallGasCostMoreThanGasLimit
            ||| err is GasFloorMoreThanGasLimit
            ||| err is OverflowPaymentInTransaction
            ||| err is NonceOverflowInTransaction
            ||| err is CreateInitCodeSizeLimit
            ||| err is InvalidChainId
            ||| err is MissingChainId
            ||| err is TxGasLimitGreaterThanCap
            ||| err is AccessListNotSupported
            ||| err is MaxFeePerBlobGasNotSupported
            ||| err is BlobVersionedHashesNotSupported
            ||| err is EmptyBlobs
            ||| err is BlobCreateTransaction
            ||| err is TooManyBlobs
            ||| err is BlobVersionNotSupported
            ||| err is AuthorizationListNotSupported
            ||| err is AuthorizationListInvalidFields
            ||| err is EmptyAuthorizationList
            ||| err is Eip2930NotSupported
            ||| err is Eip1559NotSupported
            ||| err is Eip4844NotSupported
            ||| err is Eip7702NotSupported
            ||| err is Eip7873NotSupported
            ||| err is Eip7873MissingTarget
        },
{
}

/// Of the errors of this chain those tell against the sender that speak of the transaction alone, and
/// not of the time, the fee token or the keys of the account.
pub proof fn law_bad_errors(err: TempoInvalidTransaction)
    requires
        !(err is EthInvalidTransaction),
    ensures
        err.bad() <==> {
            ||| err is SystemTransactionMustBeCall
            ||| err is SystemTransactionFailed
            ||| err is InvalidFeePayerSignature
            ||| err is SelfSponsoredFeePayer
            ||| err is InvalidP256Signature
            ||| err is InvalidWebAuthnSignature
            ||| err is ExpiringNonceMissingTxEnv
            ||| err is ExpiringNonceMissingValidBefore
            ||| err is ExpiringNonceNonceNotZero
            ||| err is SubblockTransactionMustHaveZeroFee
            ||| err is ValueTransferNotAllowed
            ||| err is ValueTransferNotAllowedInAATx
            ||| err is AccessKeyRecoveryFailed
            ||| err is AccessKeyCannotAuthorizeOtherKeys
            ||| err is KeyAuthorizationSignatureRecoveryFailed
            ||| err is KeyAuthorizationNotSignedByRoot
            ||| err is KeychainUserAddressMismatch
            ||| err is KeyAuthorizationChainIdMismatch
            ||| err is LegacyKeychainSignature
            ||| err is KeychainOpInSubblockTransaction
            ||| err is CallsValidation
        },
{
}

/// Of the errors of the pool those tell against the sender that speak of a limit on the transaction
/// itself, and those of its execution that do.
pub proof fn law_bad_pool_errors(err: TempoPoolTransactionError)
    ensures
        err.bad() <==> {
            ||| err is SubblockNonceKey
            ||| err is TooManyAuthorizations
            ||| err is TooManyCalls
            ||| err is CallInputTooLarge
            ||| err is TooManyAccessListAccounts
            ||| err is TooManyStorageKeysPerAccount
            ||| err is TooManyTotalStorageKeys
            ||| err is TooManyTokenLimits
            ||| (err is Evm && err->Evm_0.bad())
        },
{
}

/// A nonce that is too low makes no transaction a bad one: it was valid before, and tells nothing
/// against whoever sent it.
pub proof fn law_nonce_too_low_is_not_bad(err: TempoInvalidTransaction)
    ensures
        (err matches TempoInvalidTransaction::EthInvalidTransaction(eth) && eth is NonceTooLow)
            ==> !err.bad(),
{
}

/// No trouble with the fee token or its payment makes a transaction a bad one.
pub proof fn law_fee_errors_are_not_bad(err: TempoInvalidTransaction)
    ensures
        (err is InvalidFeeToken || err is FeeTokenNotTip20 || err is FeeTokenNotUsdCurrency || err
            is FeeTokenPaused || err is CollectFeePreTx) ==> !err.bad(),
{
}

impl From<InvalidTransaction> for TempoInvalidTransaction {
    fn from(err: InvalidTransaction) -> (r: Self) {
        TempoInvalidTransaction::EthInvalidTransaction(err)
    }
}

impl vstd::std_specs::convert::FromSpecImpl<InvalidTransaction> for TempoInvalidTransaction {
    open spec fn obeys_from_spec() -> bool {
        true
    }

    open spec fn from_spec(err: InvalidTransaction) -> TempoInvalidTransaction {
        TempoInvalidTransaction::EthInvalidTransaction(err)
    }
}

impl From<FeePaymentError> for TempoInvalidTransaction {
    fn from(err: FeePaymentError) -> (r: Self) {
        TempoInvalidTransaction::CollectFeePreTx(err)
    }
}

impl vstd::std_specs::convert::FromSpecImpl<FeePaymentError> for TempoInvalidTransaction {
    open spec fn obeys_from_spec() -> bool {
        true
    }

    open spec fn from_spec(err: FeePaymentError) -> TempoInvalidTransaction {
        TempoInvalidTransaction::CollectFeePreTx(err)
    }
}

impl From<&'static str> for TempoInvalidTransaction {
    fn from(err: &'static str) -> (r: Self) {
        TempoInvalidTransaction::CallsValidation(err)
    }
}

impl vstd::std_specs::convert::FromSpecImpl<&'static str> for TempoInvalidTransaction {
    open spec fn obeys_from_spec() -> bool {
        true
    }

    open spec fn from_spec(err: &'static str) -> TempoInvalidTransaction {
        TempoInvalidTransaction::CallsValidation(err)
    }
}

impl From<KeychainVersionError> for TempoInvalidTransaction {
    fn from(err: KeychainVersionError) -> (r: Self) {
        match err {
            KeychainVersionError::LegacyPostT1C => TempoInvalidTransaction::LegacyKeychainSignature,
            KeychainVersionError::V2BeforeActivation => {
                TempoInvalidTransaction::V2KeychainBeforeActivation
            },
        }
    }
}

impl vstd::std_specs::convert::FromSpecImpl<KeychainVersionError> for TempoInvalidTransaction {
    open spec fn obeys_from_spec() -> bool {
        true
    }

    open spec fn from_spec(err: KeychainVersionError) -> TempoInvalidTransaction {
        match err {
            KeychainVersionError::LegacyPostT1C => TempoInvalidTransaction::LegacyKeychainSignature,
            KeychainVersionError::V2BeforeActivation => {
                TempoInvalidTransaction::V2KeychainBeforeActivation
            },
        }
    }
}

impl From<KeyAuthorizationChainIdError> for TempoInvalidTransaction {
    fn from(err: KeyAuthorizationChainIdError) -> (r: Self) {
        TempoInvalidTransaction::KeyAuthorizationChainIdMismatch {
            expected: err.expected,
            got: err.got,
        }
    }
}

impl vstd::std_specs::convert::FromSpecImpl<KeyAuthorizationChainIdError> for TempoInvalidTransaction {
    open spec fn obeys_from_spec() -> bool {
        true
    }

    open spec fn from_spec(err: KeyAuthorizationChainIdError) -> TempoInvalidTransaction {
        TempoInvalidTransaction::KeyAuthorizationChainIdMismatch {
            expected: err.expected,
            got: err.got,
        }
    }
}

/// Why a transaction could not be executed.
#[derive(Debug, Clone, PartialEq, Eq, Hash)]
pub enum EVMError<D> {
    /// The transaction is invalid.
    Transaction(TempoInvalidTransaction),
    /// The block header is invalid.
    Header,
    /// The state could not be read.
    Database(D),
    /// Any other reason.
    Custom(String),
}

impl<D> From<TempoInvalidTransaction> for EVMError<D> {
    fn from(err: TempoInvalidTransaction) -> (r: Self) {
        EVMError::Transaction(err)
    }
}

impl<D> vstd::std_specs::convert::FromSpecImpl<TempoInvalidTransaction> for EVMError<D> {
    open spec fn obeys_from_spec() -> bool {
        true
    }

    open spec fn from_spec(err: TempoInvalidTransaction) -> EVMError<D> {
        EVMError::Transaction(err)
    }
}

impl<D> From<FeePaymentError> for EVMError<D> {
    fn from(err: FeePaymentError) -> (r: Self) {
        EVMError::Transaction(TempoInvalidTransaction::from(err))
    }
}

impl<D> vstd::std_specs::convert::FromSpecImpl<FeePaymentError> for EVMError<D> {
    open spec fn obeys_from_spec() -> bool {
        true
    }

    open spec fn from_spec(err: FeePaymentError) -> EVMError<D> {
        EVMError::Transaction(TempoInvalidTransaction::CollectFeePreTx(err))
    }
}

/// Why the pool rejects a transaction, as far as the reasons are those of this chain.
#[derive(Debug, Clone, PartialEq, Eq, Hash)]
pub enum TempoPoolTransactionError {
    /// A non-payment transaction no longer fits in the block.
    ExceedsNonPaymentLimit,
    /// The transaction expires too soon after the tip.
    InvalidValidBefore {
        /// When the transaction expires.
        valid_before: u64,
        /// The earliest expiry is after this timestamp.
        min_allowed: u64,
    },
    /// The transaction becomes valid too far in the future.
    InvalidValidAfter {
        /// When the transaction becomes valid.
        valid_after: u64,
        /// The latest timestamp accepted.
        max_allowed: u64,
    },
    /// A key authorization exceeds a limit of the pool.
    Keychain(&'static str),
    /// The nonce key has the prefix that is reserved for subblock transactions.
    SubblockNonceKey,
    /// The transaction has too many authorizations.
    TooManyAuthorizations {
        /// The number of authorizations.
        count: usize,
        /// The maximum.
        max_allowed: usize,
    },
    /// The transaction has too many calls.
    TooManyCalls {
        /// The number of calls.
        count: usize,
        /// The maximum.
        max_allowed: usize,
    },
    /// The input of a call is too long.
    CallInputTooLarge {
        /// The index of the call.
        call_index: usize,
        /// The length of its input.
        size: usize,
        /// The maximum.
        max_allowed: usize,
    },
    /// The access list has too many accounts.
    TooManyAccessListAccounts {
        /// The number of accounts.
        count: usize,
        /// The maximum.
        max_allowed: usize,
    },
    /// An account of the access list has too many storage keys.
    TooManyStorageKeysPerAccount {
        /// The index of the account.
        account_index: usize,
        /// The number of its storage keys.
        count: usize,
        /// The maximum.
        max_allowed: usize,
    },
    /// The access list has too many storage keys in all.
    TooManyTotalStorageKeys {
        /// The number of storage keys.
        count: usize,
        /// The maximum.
        max_allowed: usize,
    },
    /// A key authorization has too many token limits.
    TooManyTokenLimits {
        /// The number of token limits.
        count: usize,
        /// The maximum.
        max_allowed: usize,
    },
    /// The access key expires too soon after the tip.
    AccessKeyExpired {
        /// When the key expires.
        expiry: u64,
        /// The earliest expiry is after this timestamp.
        min_allowed: u64,
    },
    /// The key authorization expires too soon after the tip.
    KeyAuthorizationExpired {
        /// When the authorization expires.
        expiry: u64,
        /// The earliest expiry is after this timestamp.
        min_allowed: u64,
    },
    /// The transaction is invalid.
    Evm(TempoInvalidTransaction),
}

impl TempoPoolTransactionError {
    /// The transaction is malformed, as opposed to one that came at the wrong time.
    pub open spec fn bad(self) -> bool {
        match self {
            TempoPoolTransactionError::Evm(err) => err.bad(),
            _ => {
                &&& self !is ExceedsNonPaymentLimit
                &&& self !is InvalidValidBefore
                &&& self !is InvalidValidAfter
                &&& self !is AccessKeyExpired
                &&& self !is KeyAuthorizationExpired
                &&& self !is Keychain
            },
        }
    }

    /// Returns `true` if the transaction is malformed, so that the peer that sent it misbehaves.
    pub fn is_bad_transaction(&self) -> (r: bool)
        ensures
            r == self.bad(),
    {
        match self {
            TempoPoolTransactionError::Evm(err) => err.is_bad_transaction(),
            TempoPoolTransactionError::ExceedsNonPaymentLimit
            | TempoPoolTransactionError::InvalidValidBefore { .. }
            | TempoPoolTransactionError::InvalidValidAfter { .. }
            | TempoPoolTransactionError::AccessKeyExpired { .. }
            | TempoPoolTransactionError::KeyAuthorizationExpired { .. }
            | TempoPoolTransactionError::Keychain(_) => false,
            TempoPoolTransactionError::SubblockNonceKey
            | TempoPoolTransactionError::TooManyAuthorizations { .. }
            | TempoPoolTransactionError::TooManyCalls { .. }
            | TempoPoolTransactionError::CallInputTooLarge { .. }
            | TempoPoolTransactionError::TooManyAccessListAccounts { .. }
            | TempoPoolTransactionError::TooManyStorageKeysPerAccount { .. }
            | TempoPoolTransactionError::TooManyTotalStorageKeys { .. }
            | TempoPoolTransactionError::TooManyTokenLimits { .. } => true,
        }
    }
}

/// Why the pool rejects a transaction.
#[derive(Debug, Clone, PartialEq, Eq)]
pub enum InvalidPoolTransactionError {
    /// The transaction breaks a rule of the protocol.
    Consensus(InvalidTransactionError),
    /// The encoded transaction is too long.
    OversizedData {
        /// Its length.
        size: usize,
        /// The maximum.
        limit: usize,
    },
    /// The fee is below what the pool asks.
    Underpriced,
    /// A reason of this chain.
    Other(TempoPoolTransactionError),
}

} // verus!
