//! Which transactions are admitted to the pool.
use tempo_pool::error::{
    EVMError, FeePaymentError, InvalidPoolTransactionError, InvalidTransaction,
    TempoInvalidTransaction, TempoPoolTransactionError,
};
use tempo_pool::fee_token::is_fee_token_paused;
use tempo_pool::hardfork::TempoHardfork;
use tempo_pool::limits::{
    ensure_aa_field_limits, MAX_AA_CALLS, MAX_ACCESS_LIST_ACCOUNTS,
    MAX_ACCESS_LIST_STORAGE_KEYS_TOTAL, MAX_CALL_INPUT_SIZE, MAX_KEYCHAIN_CALL_SCOPES,
    MAX_KEYCHAIN_RECIPIENTS_PER_SELECTOR, MAX_KEYCHAIN_SELECTOR_RULES_PER_SCOPE,
    MAX_STORAGE_KEYS_PER_ACCOUNT, MAX_TOKEN_LIMITS,
};
use tempo_pool::pending::InvalidTransactionError;
use tempo_pool::primitives::{Address, B256, U256};
use tempo_pool::state_snapshot::{StateSnapshot, TokenState, Unreadable};
use tempo_pool::tip20::default_fee_token;
use tempo_pool::transaction::{
    AccessListItem, Call, CallScope, KeyAuthorization, SelectorRule, TempoPooledTransaction,
    TempoTransaction, TempoTxEnvelope, TokenLimit, TxKind,
};
use tempo_pool::validator::{
    InnerOutcome, Replies, TempoTransactionValidator, TransactionValidationOutcome,
    ValidTransaction, ValidationContext, ValidationFailure, AA_VALID_BEFORE_MIN_SECS,
    DEFAULT_AA_VALID_AFTER_MAX_SECS, DEFAULT_MAX_TEMPO_AUTHORIZATIONS,
};

/// An address that ends in the bytes of `n`.
fn address(n: u128) -> Address {
    Address { hi: 0, lo: n }
}

/// The word that holds `n`.
fn word(n: u64) -> U256 {
    U256::from_u64(n)
}

/// The hash of some bytes.
fn digest(bytes: &[u8]) -> B256 {
    let hash = alloy_primitives::keccak256(bytes);
    let mut hi = [0u8; 16];
    let mut lo = [0u8; 16];
    hi.copy_from_slice(&hash[..16]);
    lo.copy_from_slice(&hash[16..]);
    B256 { hi: u128::from_be_bytes(hi), lo: u128::from_be_bytes(lo) }
}

/// The hash of some bytes, as a word.
fn slot(bytes: &[u8]) -> U256 {
    let hash = digest(bytes);
    U256 { hi: hash.hi, lo: hash.lo }
}

/// Builds transactions.
struct TxBuilder {
    envelope: TempoTxEnvelope,
}

impl TxBuilder {
    fn aa(sender: Address) -> Self {
        let mut builder = TxBuilder::eip1559(address(0xca11));
        builder.envelope.sender = sender;
        builder.envelope.fee_payer = Some(sender);
        builder.envelope.ty = 0x76;
        builder.envelope.kind = TxKind::Create;
        builder.envelope.aa = Some(TempoTransaction {
            nonce_key: U256::zero(),
            has_subblock_prefix: false,
            calls: vec![Call {
                to: TxKind::Call(address(0xca11)),
                value: U256::zero(),
                input: Vec::new(),
            }],
            access_list: Vec::new(),
            tempo_authorization_list: Vec::new(),
            key_authorization: None,
            valid_before: None,
            valid_after: None,
            keychain_signature: None,
            expiring_nonce_hash: B256::zero(),
        });
        builder
    }

    fn eip1559(to: Address) -> Self {
        TxBuilder {
            envelope: TempoTxEnvelope {
                hash: B256::zero(),
                sender: address(0x5e4d),
                ty: 2,
                chain_id: Some(42431),
                nonce: 0,
                gas_limit: 1_000_000,
                max_fee_per_gas: 20_000_000_000,
                max_priority_fee_per_gas: Some(1_000_000_000),
                max_fee_per_blob_gas: None,
                value: U256::zero(),
                gas_spending: U256::zero(),
                encoded_length: 200,
                is_dynamic_fee: true,
                kind: TxKind::Call(to),
                input: Vec::new(),
                is_system_tx: false,
                is_payment: false,
                fee_token: None,
                fee_payer: Some(address(0x5e4d)),
                fee_payer_balance_slot: word(0xba1),
                nonce_slot: U256::zero(),
                expiring_nonce_seen_slot: word(0x5ee),
                aa: None,
            },
        }
    }

    fn change(mut self, f: impl FnOnce(&mut TempoTxEnvelope)) -> Self {
        f(&mut self.envelope);
        self
    }

    fn change_aa(mut self, f: impl FnOnce(&mut TempoTransaction)) -> Self {
        f(self.envelope.aa.as_mut().unwrap());
        self
    }

    fn nonce_key(self, nonce_key: U256) -> Self {
        self.change_aa(|aa| aa.nonce_key = nonce_key)
    }

    fn value(self, value: U256) -> Self {
        self.change(|tx| tx.value = value)
    }

    fn envelope(mut self) -> TempoTxEnvelope {
        let tx = &mut self.envelope;
        let mut bytes = Vec::new();
        bytes.extend(tx.sender.hi.to_be_bytes());
        bytes.extend(tx.sender.lo.to_be_bytes());
        if let Some(aa) = &tx.aa {
            bytes.extend(aa.nonce_key.hi.to_be_bytes());
            bytes.extend(aa.nonce_key.lo.to_be_bytes());
        }
        tx.nonce_slot = slot(&bytes);
        bytes.extend(tx.nonce.to_be_bytes());
        tx.hash = digest(&bytes);
        // the cost of the gas in the smallest unit of the fee token
        let attodollars = tx.gas_limit as u128 * tx.max_fee_per_gas;
        tx.gas_spending = U256::from_u128(attodollars / 1_000_000_000_000);
        self.envelope
    }

    fn build(self) -> TempoPooledTransaction {
        TempoPooledTransaction::new(self.envelope())
    }
}

const CURRENT_TIME: u64 = 1_760_000_000;

fn setup_validator(tip_timestamp: u64) -> TempoTransactionValidator {
    let mut validator = TempoTransactionValidator::new(
        131_072,
        DEFAULT_AA_VALID_AFTER_MAX_SECS,
        DEFAULT_MAX_TEMPO_AUTHORIZATIONS,
        0,
        TempoHardfork::Genesis,
    );
    validator.on_new_head_block(tip_timestamp, TempoHardfork::T2);
    validator
}

/// Replies that find nothing wrong.
fn fine() -> Replies<Unreadable> {
    Replies {
        evm: Ok(ValidationContext { fee_token: default_fee_token(), key_expiry: None }),
        liquid: Ok(true),
        inner: InnerOutcome::Valid(ValidTransaction {
            balance: U256::zero(),
            state_nonce: 0,
            bytecode_hash: None,
            propagate: true,
            authorities: None,
        }),
        keyed_nonce: Ok(0),
    }
}

/// Replies of an execution environment that refuses the transaction.
fn evm_refuses(err: TempoInvalidTransaction) -> Replies<Unreadable> {
    Replies { evm: Err(EVMError::Transaction(err)), ..fine() }
}

fn validate(tx: TempoPooledTransaction, tip_timestamp: u64) -> TransactionValidationOutcome<Unreadable> {
    setup_validator(tip_timestamp).validate_one(tx, CURRENT_TIME, fine())
}

/// The reason for which a transaction is refused.
fn reason(outcome: TransactionValidationOutcome<Unreadable>) -> InvalidPoolTransactionError {
    match outcome {
        TransactionValidationOutcome::Invalid(_, err) => err,
        other => panic!("expected an invalid transaction, got: {other:?}"),
    }
}

fn other(err: TempoPoolTransactionError) -> InvalidPoolTransactionError {
    InvalidPoolTransactionError::Other(err)
}

fn is_valid(outcome: &TransactionValidationOutcome<Unreadable>) -> bool {
    matches!(outcome, TransactionValidationOutcome::Valid { .. })
}

fn create_aa_transaction(valid_after: Option<u64>, valid_before: Option<u64>) -> TempoPooledTransaction {
    TxBuilder::aa(address(1))
        .change(|tx| tx.fee_token = Some(address(2)))
        .change_aa(|aa| {
            aa.valid_after = valid_after;
            aa.valid_before = valid_before;
        })
        .build()
}

#[test]
fn test_aa_authorization_list_authorities_tracked() {
    let expected_authority = address(7);
    let transaction = TxBuilder::aa(address(1))
        .change_aa(|aa| aa.tempo_authorization_list = vec![Some(expected_authority), None])
        .build();
    match validate(transaction, CURRENT_TIME) {
        TransactionValidationOutcome::Valid { valid, .. } => {
            let authorities = valid.authorities.unwrap();
            assert_eq!(authorities, vec![expected_authority]);
        }
        other => panic!("Expected Valid outcome with recovered authorities, got: {other:?}"),
    }
}

#[test]
fn test_some_balance() {
    let transaction = TxBuilder::eip1559(address(9)).value(word(1)).build();
    let replies = evm_refuses(TempoInvalidTransaction::ValueTransferNotAllowed);
    let outcome = setup_validator(0).validate_one(transaction, CURRENT_TIME, replies);
    assert_eq!(
        reason(outcome),
        other(TempoPoolTransactionError::Evm(TempoInvalidTransaction::ValueTransferNotAllowed))
    );
}

#[test]
fn test_system_tx_rejected_as_invalid() {
    let transaction = TxBuilder::eip1559(Address::zero())
        .change(|tx| {
            tx.ty = 0;
            tx.is_system_tx = true;
        })
        .build();
    assert_eq!(
        reason(validate(transaction, 0)),
        InvalidPoolTransactionError::Consensus(InvalidTransactionError::TxTypeNotSupported)
    );
}

#[test]
fn test_invalid_fee_payer_signature_rejected() {
    let replies = evm_refuses(TempoInvalidTransaction::InvalidFeePayerSignature);
    let transaction = TxBuilder::aa(address(1)).build();
    let outcome = setup_validator(0).validate_one(transaction, CURRENT_TIME, replies);
    assert_eq!(
        reason(outcome),
        other(TempoPoolTransactionError::Evm(TempoInvalidTransaction::InvalidFeePayerSignature))
    );
}

#[test]
fn test_self_sponsored_fee_payer_rejected() {
    let replies = evm_refuses(TempoInvalidTransaction::SelfSponsoredFeePayer);
    let transaction = TxBuilder::aa(address(1)).build();
    let outcome = setup_validator(u64::MAX).validate_one(transaction, CURRENT_TIME, replies);
    assert_eq!(
        reason(outcome),
        other(TempoPoolTransactionError::Evm(TempoInvalidTransaction::SelfSponsoredFeePayer))
    );
}

#[test]
fn test_aa_valid_before_check() {
    // Test case 1: No `valid_before`
    assert!(is_valid(&validate(create_aa_transaction(None, None), CURRENT_TIME)));

    // Test case 2: `valid_before` too small (at boundary)
    let too_close = CURRENT_TIME + AA_VALID_BEFORE_MIN_SECS;
    assert_eq!(
        reason(validate(create_aa_transaction(None, Some(too_close)), CURRENT_TIME)),
        other(TempoPoolTransactionError::InvalidValidBefore {
            valid_before: too_close,
            min_allowed: too_close,
        })
    );

    // Test case 3: `valid_before` sufficiently in the future
    let tx_valid = create_aa_transaction(None, Some(CURRENT_TIME + AA_VALID_BEFORE_MIN_SECS + 1));
    assert!(is_valid(&validate(tx_valid, CURRENT_TIME)));
}

#[test]
fn test_aa_valid_after_check() {
    // Test case 1: No `valid_after`
    assert!(is_valid(&validate(create_aa_transaction(None, None), CURRENT_TIME)));

    // Test case 2: `valid_after` within limit (60 seconds)
    assert!(is_valid(&validate(create_aa_transaction(Some(CURRENT_TIME + 60), None), CURRENT_TIME)));

    // Test case 3: `valid_after` beyond limit (5 minutes, exceeds 120s max)
    assert_eq!(
        reason(validate(create_aa_transaction(Some(CURRENT_TIME + 300), None), CURRENT_TIME)),
        other(TempoPoolTransactionError::InvalidValidAfter {
            valid_after: CURRENT_TIME + 300,
            max_allowed: CURRENT_TIME + 120,
        })
    );
}

#[test]
fn test_aa_valid_after_and_valid_before_both_valid() {
    let transaction = create_aa_transaction(Some(CURRENT_TIME + 60), Some(CURRENT_TIME + 3600));
    assert!(is_valid(&validate(transaction, CURRENT_TIME)));
}

#[test]
fn test_non_zero_value_in_eip1559_rejected() {
    let transaction = TxBuilder::eip1559(address(9)).value(word(1)).build();
    let replies = evm_refuses(TempoInvalidTransaction::ValueTransferNotAllowed);
    let outcome = setup_validator(CURRENT_TIME).validate_one(transaction, CURRENT_TIME, replies);
    assert_eq!(
        reason(outcome),
        other(TempoPoolTransactionError::Evm(TempoInvalidTransaction::ValueTransferNotAllowed))
    );
}

#[test]
fn test_zero_value_passes_value_check() {
    let transaction = TxBuilder::eip1559(address(9)).build();
    assert!(transaction.inner().value.is_zero());
    assert!(is_valid(&validate(transaction, CURRENT_TIME)));
}

#[test]
fn test_invalid_fee_token_rejected() {
    let invalid = Address { hi: 0x1234_5678, lo: 0x9012_3456_7890_1234_5678_9012_3456_7890 };
    let transaction = TxBuilder::aa(address(1)).change(|tx| tx.fee_token = Some(invalid)).build();
    let replies = evm_refuses(TempoInvalidTransaction::FeeTokenNotTip20 { address: invalid });
    let outcome = setup_validator(CURRENT_TIME).validate_one(transaction, CURRENT_TIME, replies);
    assert_eq!(
        reason(outcome),
        other(TempoPoolTransactionError::Evm(TempoInvalidTransaction::FeeTokenNotTip20 {
            address: invalid,
        }))
    );
}

#[test]
fn test_fee_cap_below_min_base_fee_rejected() {
    let transaction =
        TxBuilder::aa(address(1)).change(|tx| tx.max_fee_per_gas = 1_000_000_000).build();
    let err = TempoInvalidTransaction::EthInvalidTransaction(
        InvalidTransaction::GasPriceLessThanBasefee,
    );
    let outcome = setup_validator(CURRENT_TIME).validate_one(
        transaction,
        CURRENT_TIME,
        evm_refuses(err.clone()),
    );
    assert_eq!(reason(outcome), other(TempoPoolTransactionError::Evm(err)));
}

#[test]
fn test_intrinsic_gas_error_contains_gas_details() {
    let transaction = TxBuilder::eip1559(address(9)).change(|tx| tx.gas_limit = 5_000).build();
    let err = TempoInvalidTransaction::EthInvalidTransaction(
        InvalidTransaction::CallGasCostMoreThanGasLimit { initial_gas: 21_000, gas_limit: 5_000 },
    );
    let outcome = setup_validator(CURRENT_TIME).validate_one(
        transaction,
        CURRENT_TIME,
        evm_refuses(err.clone()),
    );
    assert_eq!(reason(outcome), other(TempoPoolTransactionError::Evm(err)));
}

#[test]
fn test_aa_too_many_authorizations_rejected() {
    let transaction = TxBuilder::aa(address(1))
        .change_aa(|aa| {
            aa.tempo_authorization_list = vec![None; DEFAULT_MAX_TEMPO_AUTHORIZATIONS + 1]
        })
        .build();
    assert_eq!(
        reason(validate(transaction, CURRENT_TIME)),
        other(TempoPoolTransactionError::TooManyAuthorizations { count: 17, max_allowed: 16 })
    );
}

#[test]
fn test_aa_authorization_count_at_limit_accepted() {
    let transaction = TxBuilder::aa(address(1))
        .change_aa(|aa| aa.tempo_authorization_list = vec![None; DEFAULT_MAX_TEMPO_AUTHORIZATIONS])
        .build();
    assert!(is_valid(&validate(transaction, CURRENT_TIME)));
}

/// A token in dollars that is paused.
fn paused_token_state(token: Address) -> StateSnapshot {
    let usd = U256 { hi: 0x5553_4400_0000_0000_0000_0000_0000_0000, lo: 6 };
    StateSnapshot {
        readable: true,
        user_tokens: Vec::new(),
        tokens: vec![(token, TokenState { currency_slot: usd, paused: true, policy_id: 1 })],
        allowed: Vec::new(),
        balances: Vec::new(),
    }
}

#[test]
fn test_paused_token_is_invalid_fee_token() {
    let fee_token = Address { hi: 0x20C0_0000, lo: 1 };
    let mut state = paused_token_state(fee_token);
    assert_eq!(is_fee_token_paused(&mut state, TempoHardfork::Genesis, fee_token), Ok(true));
}

#[test]
fn test_paused_validator_token_rejected_before_liquidity_bypass() {
    let token = Address { hi: 0x20C0_0000, lo: 1 };
    // The refusal of the paused token comes before the liquidity, which would let it pass
    let err = TempoInvalidTransaction::FeeTokenPaused { address: token };
    let transaction = TxBuilder::aa(address(1)).change(|tx| tx.fee_token = Some(token)).build();
    let replies = Replies { liquid: Ok(true), ..evm_refuses(err.clone()) };
    let outcome = setup_validator(CURRENT_TIME).validate_one(transaction, CURRENT_TIME, replies);
    assert_eq!(reason(outcome), other(TempoPoolTransactionError::Evm(err)));
    let mut state = paused_token_state(token);
    assert_eq!(is_fee_token_paused(&mut state, TempoHardfork::Genesis, token), Ok(true));
}

fn calls(count: usize) -> Vec<Call> {
    (0..count)
        .map(|i| Call {
            to: TxKind::Call(address(i as u128)),
            value: U256::zero(),
            input: Vec::new(),
        })
        .collect()
}

fn with_calls(calls: Vec<Call>) -> TempoPooledTransaction {
    TxBuilder::aa(address(1)).change_aa(|aa| aa.calls = calls).build()
}

fn with_access_list(items: Vec<AccessListItem>) -> TempoPooledTransaction {
    TxBuilder::aa(address(1)).change_aa(|aa| aa.access_list = items).build()
}

fn account(n: usize, keys: usize) -> AccessListItem {
    AccessListItem { address: address(n as u128), storage_keys: vec![B256::zero(); keys] }
}

#[test]
fn test_aa_exactly_max_calls_accepted() {
    assert!(is_valid(&validate(with_calls(calls(MAX_AA_CALLS)), CURRENT_TIME)));
}

#[test]
fn test_aa_too_many_calls_rejected() {
    assert_eq!(
        reason(validate(with_calls(calls(MAX_AA_CALLS + 1)), CURRENT_TIME)),
        other(TempoPoolTransactionError::TooManyCalls { count: 33, max_allowed: 32 })
    );
}

fn call_with_input(size: usize) -> Vec<Call> {
    let mut calls = calls(1);
    calls[0].input = vec![0u8; size];
    calls
}

#[test]
fn test_aa_exactly_max_call_input_size_accepted() {
    let transaction = with_calls(call_with_input(MAX_CALL_INPUT_SIZE));
    assert!(is_valid(&validate(transaction, CURRENT_TIME)));
}

#[test]
fn test_aa_call_input_too_large_rejected() {
    let transaction = with_calls(call_with_input(MAX_CALL_INPUT_SIZE + 1));
    assert_eq!(
        reason(validate(transaction, CURRENT_TIME)),
        other(TempoPoolTransactionError::CallInputTooLarge {
            call_index: 0,
            size: MAX_CALL_INPUT_SIZE + 1,
            max_allowed: MAX_CALL_INPUT_SIZE,
        })
    );
}

#[test]
fn an_encoding_that_is_too_long_is_refused_first() {
    let transaction = TxBuilder::aa(address(1))
        .change(|tx| tx.encoded_length = 131_073)
        .change_aa(|aa| aa.calls = call_with_input(MAX_CALL_INPUT_SIZE + 1))
        .build();
    assert_eq!(
        reason(validate(transaction, CURRENT_TIME)),
        InvalidPoolTransactionError::OversizedData { size: 131_073, limit: 131_072 }
    );
}

#[test]
fn test_aa_exactly_max_access_list_accounts_accepted() {
    let items = (0..MAX_ACCESS_LIST_ACCOUNTS).map(|i| account(i, 0)).collect();
    assert!(is_valid(&validate(with_access_list(items), CURRENT_TIME)));
}

#[test]
fn test_aa_too_many_access_list_accounts_rejected() {
    let items = (0..MAX_ACCESS_LIST_ACCOUNTS + 1).map(|i| account(i, 0)).collect();
    assert_eq!(
        reason(validate(with_access_list(items), CURRENT_TIME)),
        other(TempoPoolTransactionError::TooManyAccessListAccounts { count: 257, max_allowed: 256 })
    );
}

#[test]
fn test_aa_exactly_max_storage_keys_per_account_accepted() {
    let items = vec![account(0, MAX_STORAGE_KEYS_PER_ACCOUNT)];
    assert!(is_valid(&validate(with_access_list(items), CURRENT_TIME)));
}

#[test]
fn test_aa_too_many_storage_keys_per_account_rejected() {
    let items = vec![account(0, MAX_STORAGE_KEYS_PER_ACCOUNT + 1)];
    assert_eq!(
        reason(validate(with_access_list(items), CURRENT_TIME)),
        other(TempoPoolTransactionError::TooManyStorageKeysPerAccount {
            account_index: 0,
            count: 257,
            max_allowed: 256,
        })
    );
}

#[test]
fn test_aa_exactly_max_total_storage_keys_accepted() {
    let num_accounts = MAX_ACCESS_LIST_STORAGE_KEYS_TOTAL / MAX_STORAGE_KEYS_PER_ACCOUNT;
    let items: Vec<AccessListItem> =
        (0..num_accounts).map(|i| account(i, MAX_STORAGE_KEYS_PER_ACCOUNT)).collect();
    assert_eq!(
        items.iter().map(|i| i.storage_keys.len()).sum::<usize>(),
        MAX_ACCESS_LIST_STORAGE_KEYS_TOTAL
    );
    assert!(is_valid(&validate(with_access_list(items), CURRENT_TIME)));
}

#[test]
fn test_aa_too_many_total_storage_keys_rejected() {
    let num_accounts = MAX_ACCESS_LIST_STORAGE_KEYS_TOTAL / MAX_STORAGE_KEYS_PER_ACCOUNT;
    let mut items: Vec<AccessListItem> =
        (0..num_accounts).map(|i| account(i, MAX_STORAGE_KEYS_PER_ACCOUNT)).collect();
    items.push(account(99, 1));
    assert_eq!(
        reason(validate(with_access_list(items), CURRENT_TIME)),
        other(TempoPoolTransactionError::TooManyTotalStorageKeys { count: 2049, max_allowed: 2048 })
    );
}

fn with_key_authorization(
    limits: Option<Vec<TokenLimit>>,
    allowed_calls: Option<Vec<CallScope>>,
) -> TempoPooledTransaction {
    TxBuilder::aa(address(1))
        .change_aa(|aa| {
            aa.key_authorization = Some(KeyAuthorization { witness: None, limits, allowed_calls })
        })
        .build()
}

#[test]
fn token_limits_are_counted() {
    let limits = |n: usize| Some(vec![TokenLimit { token: address(1), limit: word(1) }; n]);
    assert!(ensure_aa_field_limits(&with_key_authorization(limits(MAX_TOKEN_LIMITS), None)).is_ok());
    assert_eq!(
        ensure_aa_field_limits(&with_key_authorization(limits(MAX_TOKEN_LIMITS + 1), None)),
        Err(TempoPoolTransactionError::TooManyTokenLimits { count: 257, max_allowed: 256 })
    );
}

#[test]
fn call_scopes_are_counted() {
    let scopes = |scopes: usize, rules: usize, recipients: usize| {
        let rule = SelectorRule { recipients: vec![address(1); recipients] };
        let scope = CallScope { selector_rules: vec![rule; rules] };
        with_key_authorization(None, Some(vec![scope; scopes]))
    };
    let s = MAX_KEYCHAIN_CALL_SCOPES;
    let r = MAX_KEYCHAIN_SELECTOR_RULES_PER_SCOPE;
    let p = MAX_KEYCHAIN_RECIPIENTS_PER_SELECTOR;
    assert!(ensure_aa_field_limits(&scopes(s, r, p)).is_ok());
    for breach in [scopes(s + 1, 1, 1), scopes(1, r + 1, 1), scopes(1, 1, p + 1)] {
        let err = ensure_aa_field_limits(&breach).unwrap_err();
        assert!(matches!(err, TempoPoolTransactionError::Keychain(_)), "got: {err:?}");
        assert!(!err.is_bad_transaction());
    }
}

#[test]
fn a_key_that_expires_soon_is_refused() {
    let context =
        |expiry| Ok(ValidationContext { fee_token: default_fee_token(), key_expiry: Some(expiry) });
    let min_allowed = CURRENT_TIME + AA_VALID_BEFORE_MIN_SECS;
    let validator = setup_validator(CURRENT_TIME);
    let refused = validator.validate_one(
        TxBuilder::aa(address(1)).build(),
        CURRENT_TIME,
        Replies { evm: context(min_allowed), ..fine() },
    );
    assert_eq!(
        reason(refused),
        other(TempoPoolTransactionError::AccessKeyExpired { expiry: min_allowed, min_allowed })
    );
    let passed = validator.validate_one(
        TxBuilder::aa(address(1)).build(),
        CURRENT_TIME,
        Replies { evm: context(min_allowed + 1), ..fine() },
    );
    match passed {
        TransactionValidationOutcome::Valid { transaction, .. } => {
            assert_eq!(transaction.key_expiry(), Some(min_allowed + 1));
            assert_eq!(transaction.resolved_fee_token(), Some(default_fee_token()));
        }
        other => panic!("expected a valid transaction, got: {other:?}"),
    }
}

#[test]
fn a_fee_that_cannot_be_swapped_is_refused() {
    let transaction = TxBuilder::aa(address(1)).build();
    let fee = transaction.fee_token_cost();
    let outcome = setup_validator(CURRENT_TIME).validate_one(
        transaction,
        CURRENT_TIME,
        Replies { liquid: Ok(false), ..fine() },
    );
    assert_eq!(
        reason(outcome),
        other(TempoPoolTransactionError::Evm(TempoInvalidTransaction::CollectFeePreTx(
            FeePaymentError::InsufficientAmmLiquidity { fee }
        )))
    );
}

#[test]
fn a_keyed_nonce_must_be_fresh() {
    let validator = setup_validator(CURRENT_TIME);
    let keyed = |nonce| TxBuilder::aa(address(1)).nonce_key(word(5)).change(|tx| tx.nonce = nonce);
    assert!(validator.needs_keyed_nonce(&keyed(0).build()));
    assert!(!validator.needs_keyed_nonce(&TxBuilder::aa(address(1)).build()));
    let expiring = TxBuilder::aa(address(1)).nonce_key(U256::max_value()).build();
    assert!(!validator.needs_keyed_nonce(&expiring));

    let low = validator.validate_one(
        keyed(3).build(),
        CURRENT_TIME,
        Replies { keyed_nonce: Ok(4), ..fine() },
    );
    assert_eq!(
        reason(low),
        InvalidPoolTransactionError::Consensus(InvalidTransactionError::NonceNotConsistent {
            tx: 3,
            state: 4,
        })
    );
    let fresh = validator.validate_one(
        keyed(4).build(),
        CURRENT_TIME,
        Replies { keyed_nonce: Ok(4), ..fine() },
    );
    match fresh {
        TransactionValidationOutcome::Valid { valid, .. } => assert_eq!(valid.state_nonce, 4),
        other => panic!("expected a valid transaction, got: {other:?}"),
    }

    let subblock = keyed(0).change_aa(|aa| aa.has_subblock_prefix = true).build();
    assert_eq!(
        reason(validator.validate_one(subblock, CURRENT_TIME, fine())),
        other(TempoPoolTransactionError::SubblockNonceKey)
    );
}

#[test]
fn failures_are_told_with_the_hash() {
    let transaction = TxBuilder::aa(address(1)).build();
    let hash = *transaction.hash();
    let outcome = setup_validator(CURRENT_TIME).validate_one(
        transaction,
        CURRENT_TIME,
        Replies { evm: Err(EVMError::Database(Unreadable)), ..fine() },
    );
    match outcome {
        TransactionValidationOutcome::Error(found, ValidationFailure::Evm(err)) => {
            assert_eq!(found, hash);
            assert_eq!(err, EVMError::Database(Unreadable));
        }
        other => panic!("expected an error, got: {other:?}"),
    }
}

#[test]
fn the_inner_validator_has_its_say() {
    let outcome = setup_validator(CURRENT_TIME).validate_one(
        TxBuilder::aa(address(1)).build(),
        CURRENT_TIME,
        Replies { inner: InnerOutcome::Invalid(InvalidPoolTransactionError::Underpriced), ..fine() },
    );
    assert_eq!(reason(outcome), InvalidPoolTransactionError::Underpriced);
}

#[test]
fn transactions_are_validated_one_by_one() {
    let validator = setup_validator(CURRENT_TIME);
    let good = TxBuilder::aa(address(1)).build();
    let bad = create_aa_transaction(None, Some(CURRENT_TIME));
    let outcomes =
        validator.validate_transactions(vec![(good.clone(), fine()), (bad, fine())], CURRENT_TIME);
    assert_eq!(outcomes.len(), 2);
    assert!(is_valid(&outcomes[0]));
    assert!(!is_valid(&outcomes[1]));
    assert!(is_valid(&validator.validate_transaction(good, CURRENT_TIME, Ok(fine()))));
}

#[test]
fn without_a_state_every_transaction_fails() {
    let validator = setup_validator(CURRENT_TIME);
    let a = TxBuilder::aa(address(1)).build();
    let b = TxBuilder::aa(address(2)).build();
    let hashes = [*a.hash(), *b.hash()];
    let outcomes = validator.unavailable(&vec![a.clone(), b], Unreadable);
    assert_eq!(outcomes.len(), 2);
    for (outcome, hash) in outcomes.iter().zip(hashes) {
        assert!(matches!(
            outcome,
            TransactionValidationOutcome::Error(found, ValidationFailure::State(Unreadable))
                if *found == hash
        ));
    }
    let outcome = validator.validate_transaction(a, CURRENT_TIME, Err(Unreadable));
    assert!(matches!(outcome, TransactionValidationOutcome::Error(found, _) if found == hashes[0]));
}

/// Validates a transaction step by step, and notes what was asked for.
fn asked_of(
    tx: TempoPooledTransaction,
    replies: Replies<Unreadable>,
) -> (TransactionValidationOutcome<Unreadable>, Vec<&'static str>) {
    let asked = std::cell::RefCell::new(Vec::new());
    let outcome = setup_validator(CURRENT_TIME).validate_with(
        tx,
        CURRENT_TIME,
        |tx: &TempoPooledTransaction| {
            assert_eq!(tx.resolved_fee_token(), None);
            asked.borrow_mut().push("evm");
            replies.evm
        },
        |token, fee| {
            assert_eq!(token, default_fee_token());
            assert!(!fee.is_zero());
            asked.borrow_mut().push("liquidity");
            replies.liquid
        },
        |tx: &TempoPooledTransaction| {
            // what the execution environment found is known by now
            assert_eq!(tx.resolved_fee_token(), Some(default_fee_token()));
            asked.borrow_mut().push("inner");
            replies.inner
        },
        |_: &TempoPooledTransaction| {
            asked.borrow_mut().push("nonce");
            replies.keyed_nonce
        },
    );
    (outcome, asked.into_inner())
}

#[test]
fn nothing_is_asked_once_a_transaction_is_refused() {
    let keyed = || {
        TxBuilder::aa(address(1)).change_aa(|aa| aa.nonce_key = word(7)).build()
    };
    let plain = || TxBuilder::aa(address(1)).build();

    // the transaction alone
    let (outcome, asked) = asked_of(create_aa_transaction(None, Some(CURRENT_TIME)), fine());
    assert!(!is_valid(&outcome));
    assert!(asked.is_empty());

    // the execution environment
    let err = TempoInvalidTransaction::ValueTransferNotAllowed;
    let (outcome, asked) = asked_of(keyed(), evm_refuses(err));
    assert!(!is_valid(&outcome));
    assert_eq!(asked, vec!["evm"]);

    // the liquidity
    let (outcome, asked) = asked_of(keyed(), Replies { liquid: Ok(false), ..fine() });
    assert!(!is_valid(&outcome));
    assert_eq!(asked, vec!["evm", "liquidity"]);

    // the inner validator
    let invalid = InnerOutcome::Invalid(InvalidPoolTransactionError::Underpriced);
    let (outcome, asked) = asked_of(keyed(), Replies { inner: invalid, ..fine() });
    assert_eq!(reason(outcome), InvalidPoolTransactionError::Underpriced);
    assert_eq!(asked, vec!["evm", "liquidity", "inner"]);

    // a reserved nonce key is refused before the nonce is read
    let reserved = TxBuilder::aa(address(1))
        .change_aa(|aa| {
            aa.nonce_key = word(7);
            aa.has_subblock_prefix = true;
        })
        .build();
    let (outcome, asked) = asked_of(reserved, fine());
    assert_eq!(reason(outcome), other(TempoPoolTransactionError::SubblockNonceKey));
    assert_eq!(asked, vec!["evm", "liquidity", "inner"]);

    // only a nonce under a key is read
    let (outcome, asked) = asked_of(plain(), fine());
    assert!(is_valid(&outcome));
    assert_eq!(asked, vec!["evm", "liquidity", "inner"]);
    let (outcome, asked) = asked_of(keyed(), fine());
    assert!(is_valid(&outcome));
    assert_eq!(asked, vec!["evm", "liquidity", "inner", "nonce"]);
}
