//! Why transactions are refused.
use tempo_pool::error::{
    Currency, EVMError, FeePaymentError, HaltAnswer, HaltReason, InvalidTransaction,
    KeyAuthorizationChainIdError, KeychainVersionError, TempoHaltReason, TempoInvalidTransaction,
    TempoPoolTransactionError,
};
use tempo_pool::primitives::{Address, U256};

fn token() -> Address {
    Address { hi: 0x2020_2020, lo: 0x2020_2020_2020_2020_2020_2020_2020_2020 }
}

#[test]
fn test_from_invalid_transaction() {
    let eth_err = InvalidTransaction::PriorityFeeGreaterThanMaxFee;
    let tempo_err: TempoInvalidTransaction = eth_err.into();
    assert!(matches!(tempo_err, TempoInvalidTransaction::EthInvalidTransaction(_)));
}

#[test]
fn test_fee_token_errors_are_not_bad_transactions() {
    let address = token();
    let cases = [
        TempoInvalidTransaction::InvalidFeeToken(address),
        TempoInvalidTransaction::FeeTokenNotTip20 { address },
        TempoInvalidTransaction::FeeTokenNotUsdCurrency {
            address,
            currency: Currency::Code(b"EUR".to_vec()),
        },
        TempoInvalidTransaction::FeeTokenPaused { address },
    ];

    for err in cases {
        assert!(!err.is_bad_transaction(), "{err:?} should not be bad");
    }
}

#[test]
fn test_is_nonce_too_low() {
    let err = TempoInvalidTransaction::EthInvalidTransaction(InvalidTransaction::NonceTooLow {
        tx: 1,
        state: 0,
    });
    assert!(err.is_nonce_too_low());
    assert!(err.as_invalid_tx_err().is_some());

    let err = TempoInvalidTransaction::InvalidFeePayerSignature;
    assert!(!err.is_nonce_too_low());
    assert!(err.as_invalid_tx_err().is_none());

    let err = TempoInvalidTransaction::SelfSponsoredFeePayer;
    assert!(!err.is_nonce_too_low());
    assert!(err.as_invalid_tx_err().is_none());
}

#[test]
fn test_fee_payment_error() {
    let err: EVMError<()> =
        FeePaymentError::InsufficientAmmLiquidity { fee: U256::from_u64(1000) }.into();
    assert_eq!(
        err,
        EVMError::Transaction(TempoInvalidTransaction::CollectFeePreTx(
            FeePaymentError::InsufficientAmmLiquidity { fee: U256::from_u64(1000) }
        ))
    );
}

#[test]
fn malformed_transactions_are_bad() {
    let bad = [
        InvalidTransaction::PriorityFeeGreaterThanMaxFee,
        InvalidTransaction::CallGasCostMoreThanGasLimit { initial_gas: 2, gas_limit: 1 },
        InvalidTransaction::InvalidChainId,
        InvalidTransaction::TxGasLimitGreaterThanCap { gas_limit: 2, cap: 1 },
    ];
    for err in bad {
        assert!(TempoInvalidTransaction::from(err).is_bad_transaction());
    }
    let transient = [
        InvalidTransaction::GasPriceLessThanBasefee,
        InvalidTransaction::NonceTooHigh { tx: 1, state: 0 },
        InvalidTransaction::LackOfFundForMaxFee { fee: U256::from_u64(2), balance: U256::zero() },
    ];
    for err in transient {
        assert!(!TempoInvalidTransaction::from(err).is_bad_transaction());
    }
}

#[test]
fn other_errors_are_converted() {
    let err: TempoInvalidTransaction = "calls list is empty".into();
    assert_eq!(err, TempoInvalidTransaction::CallsValidation("calls list is empty"));
    assert!(err.is_bad_transaction());

    let err: TempoInvalidTransaction = KeychainVersionError::LegacyPostT1C.into();
    assert_eq!(err, TempoInvalidTransaction::LegacyKeychainSignature);
    let err: TempoInvalidTransaction = KeychainVersionError::V2BeforeActivation.into();
    assert_eq!(err, TempoInvalidTransaction::V2KeychainBeforeActivation);

    let err: TempoInvalidTransaction = KeyAuthorizationChainIdError { expected: 1, got: 2 }.into();
    assert_eq!(err, TempoInvalidTransaction::KeyAuthorizationChainIdMismatch { expected: 1, got: 2 });

    let err: EVMError<()> = TempoInvalidTransaction::InvalidP256Signature.into();
    assert_eq!(err, EVMError::Transaction(TempoInvalidTransaction::InvalidP256Signature));
}

#[test]
fn halts_are_answered() {
    let halt: TempoHaltReason = HaltReason::OutOfGas.into();
    assert_eq!(halt, TempoHaltReason::Ethereum(HaltReason::OutOfGas));
    assert_eq!(halt.from_evm_halt(7), HaltAnswer::Ethereum(HaltReason::OutOfGas, 7));
    assert_eq!(
        TempoHaltReason::SubblockTxFeePayment.from_evm_halt(7),
        HaltAnswer::EvmCustom("subblock transaction failed to pay fees")
    );
}

#[test]
fn test_is_bad_transaction() {
    let cases = [
        (TempoPoolTransactionError::ExceedsNonPaymentLimit, false),
        (
            TempoPoolTransactionError::InvalidValidBefore { valid_before: 100, min_allowed: 200 },
            false,
        ),
        (
            TempoPoolTransactionError::InvalidValidAfter { valid_after: 200, max_allowed: 100 },
            false,
        ),
        (TempoPoolTransactionError::Keychain("test error"), false),
        (
            TempoPoolTransactionError::Evm(TempoInvalidTransaction::NonceManagerError(
                "nonce error".to_string(),
            )),
            false,
        ),
        (
            TempoPoolTransactionError::Evm(TempoInvalidTransaction::FeeTokenNotTip20 {
                address: token(),
            }),
            false,
        ),
        (
            TempoPoolTransactionError::Evm(TempoInvalidTransaction::FeeTokenNotUsdCurrency {
                address: token(),
                currency: Currency::Code(b"EUR".to_vec()),
            }),
            false,
        ),
        (
            TempoPoolTransactionError::Evm(TempoInvalidTransaction::FeeTokenPaused {
                address: token(),
            }),
            false,
        ),
        (TempoPoolTransactionError::AccessKeyExpired { expiry: 100, min_allowed: 200 }, false),
        (
            TempoPoolTransactionError::KeyAuthorizationExpired { expiry: 100, min_allowed: 200 },
            false,
        ),
        (TempoPoolTransactionError::SubblockNonceKey, true),
        (
            TempoPoolTransactionError::Evm(TempoInvalidTransaction::CallsValidation("calls error")),
            true,
        ),
    ];

    for (err, expected) in cases {
        assert_eq!(
            err.is_bad_transaction(),
            expected,
            "Unexpected is_bad_transaction() for: {err:?}"
        );
    }
}

#[test]
fn test_legacy_keychain_post_t1c_is_bad_transaction() {
    assert!(
        TempoPoolTransactionError::Evm(TempoInvalidTransaction::LegacyKeychainSignature)
            .is_bad_transaction(),
        "Post-T1C V1 rejection should be a bad transaction (permanent)"
    );
}

#[test]
fn test_v2_keychain_pre_t1c_is_not_bad_transaction() {
    assert!(
        !TempoPoolTransactionError::Evm(TempoInvalidTransaction::V2KeychainBeforeActivation)
            .is_bad_transaction(),
        "Pre-T1C V2 rejection should NOT be a bad transaction (transient)"
    );
}

#[test]
fn test_expired_access_key_is_not_bad_transaction() {
    assert!(
        !TempoPoolTransactionError::AccessKeyExpired { expiry: 1, min_allowed: 4 }
            .is_bad_transaction(),
        "Expired access key rejection should NOT be a bad transaction (timing-sensitive)"
    );
}

#[test]
fn test_expired_key_authorization_is_not_bad_transaction() {
    assert!(
        !TempoPoolTransactionError::KeyAuthorizationExpired { expiry: 1, min_allowed: 4 }
            .is_bad_transaction(),
        "Expired key authorization rejection should NOT be a bad transaction (timing-sensitive)"
    );
}
