//! Pooled transactions and the keychain types around them.
use tempo_pool::ids::AASequenceId;
use tempo_pool::keychain::{
    KeyAuthorizationWitnessSubject, KeychainSubject, RevokedKeys, SpendingLimitUpdates,
};
use tempo_pool::local_policy::{
    check_stateful, check_stateless, ProgrammaticPoolError, MAX_EXTERNAL_TX_ENCODED_LEN,
};
use tempo_pool::error::InvalidPoolTransactionError;
use tempo_pool::primitives::{Address, B256, U256};
use tempo_pool::tip20::default_fee_token;
use tempo_pool::transaction::{
    BlobTransactionValidationError, Call, KeyAuthorization, KeychainSignature,
    TempoPooledTransaction, TempoTransaction, TempoTxEnvelope, TransactionOrigin, TxKind,
};

/// An address that ends in the bytes of `n`.
fn address(n: u128) -> Address {
    Address { hi: 0, lo: n }
}

/// The word that holds `n`.
fn word(n: u64) -> U256 {
    U256::from_u64(n)
}

/// The hash of some bytes.
fn digest(bytes: &[u8]) -> B256 {
    let hash = alloy_primitives::keccak256(bytes);
    let mut hi = [0u8; 16];
    let mut lo = [0u8; 16];
    hi.copy_from_slice(&hash[..16]);
    lo.copy_from_slice(&hash[16..]);
    B256 { hi: u128::from_be_bytes(hi), lo: u128::from_be_bytes(lo) }
}

/// The hash of some bytes, as a word.
fn slot(bytes: &[u8]) -> U256 {
    let hash = digest(bytes);
    U256 { hi: hash.hi, lo: hash.lo }
}

/// Builds transactions.
struct TxBuilder {
    envelope: TempoTxEnvelope,
}

impl TxBuilder {
    fn aa(sender: Address) -> Self {
        let mut builder = TxBuilder::eip1559(address(0xca11));
        builder.envelope.sender = sender;
        builder.envelope.fee_payer = Some(sender);
        builder.envelope.ty = 0x76;
        builder.envelope.kind = TxKind::Create;
        builder.envelope.aa = Some(TempoTransaction {
            nonce_key: U256::zero(),
            has_subblock_prefix: false,
            calls: vec![Call {
                to: TxKind::Call(address(0xca11)),
                value: U256::zero(),
                input: Vec::new(),
            }],
            access_list: Vec::new(),
            tempo_authorization_list: Vec::new(),
            key_authorization: None,
            valid_before: None,
            valid_after: None,
            keychain_signature: None,
            expiring_nonce_hash: B256::zero(),
        });
        builder
    }

    fn eip1559(to: Address) -> Self {
        TxBuilder {
            envelope: TempoTxEnvelope {
                hash: B256::zero(),
                sender: address(0x5e4d),
                ty: 2,
                chain_id: Some(42431),
                nonce: 0,
                gas_limit: 1_000_000,
                max_fee_per_gas: 20_000_000_000,
                max_priority_fee_per_gas: Some(1_000_000_000),
                max_fee_per_blob_gas: None,
                value: U256::zero(),
                gas_spending: U256::zero(),
                encoded_length: 200,
                is_dynamic_fee: true,
                kind: TxKind::Call(to),
                input: Vec::new(),
                is_system_tx: false,
                is_payment: false,
                fee_token: None,
                fee_payer: Some(address(0x5e4d)),
                fee_payer_balance_slot: word(0xba1),
                nonce_slot: U256::zero(),
                expiring_nonce_seen_slot: word(0x5ee),
                aa: None,
            },
        }
    }

    fn change(mut self, f: impl FnOnce(&mut TempoTxEnvelope)) -> Self {
        f(&mut self.envelope);
        self
    }

    fn change_aa(mut self, f: impl FnOnce(&mut TempoTransaction)) -> Self {
        f(self.envelope.aa.as_mut().unwrap());
        self
    }

    fn nonce_key(self, nonce_key: U256) -> Self {
        self.change_aa(|aa| aa.nonce_key = nonce_key)
    }

    fn nonce(self, nonce: u64) -> Self {
        self.change(|tx| tx.nonce = nonce)
    }

    fn value(self, value: U256) -> Self {
        self.change(|tx| tx.value = value)
    }

    fn fee_token(self, token: Address) -> Self {
        self.change(|tx| tx.fee_token = Some(token))
    }

    fn envelope(mut self) -> TempoTxEnvelope {
        let tx = &mut self.envelope;
        let mut bytes = Vec::new();
        bytes.extend(tx.sender.hi.to_be_bytes());
        bytes.extend(tx.sender.lo.to_be_bytes());
        if let Some(aa) = &tx.aa {
            bytes.extend(aa.nonce_key.hi.to_be_bytes());
            bytes.extend(aa.nonce_key.lo.to_be_bytes());
        }
        tx.nonce_slot = slot(&bytes);
        bytes.extend(tx.nonce.to_be_bytes());
        tx.hash = digest(&bytes);
        // the cost of the gas in the smallest unit of the fee token
        let attodollars = tx.gas_limit as u128 * tx.max_fee_per_gas;
        tx.gas_spending = U256::from_u128(attodollars / 1_000_000_000_000);
        self.envelope
    }

    fn build(self) -> TempoPooledTransaction {
        TempoPooledTransaction::new(self.envelope())
    }
}

#[test]
fn test_fee_token_cost() {
    let value = word(1000);
    let tx = TxBuilder::aa(address(1)).value(value).build();

    // fee_token_cost = cost - value = gas spending
    //                = (1_000_000 * 20_000_000_000) / 1_000_000_000_000 = 20000
    assert_eq!(tx.fee_token_cost(), word(20000));
    assert_eq!(tx.total_cost, word(21000));
}

#[test]
fn a_cost_that_does_not_fit_leaves_room_for_the_value() {
    let mut envelope = TxBuilder::aa(address(1)).value(U256::max_value()).envelope();
    envelope.gas_spending = word(5);
    let tx = TempoPooledTransaction::new(envelope);
    assert_eq!(tx.total_cost, U256::max_value());
    assert_eq!(tx.fee_token_cost(), U256::zero());
}

#[test]
fn test_non_aa_transaction_helpers() {
    let tx = TxBuilder::eip1559(address(1)).build();

    // Non-AA transactions should return None/false for AA-specific helpers
    assert!(!tx.is_aa(), "Non-AA tx should not be AA");
    assert!(tx.nonce_key().is_none(), "Non-AA tx should have no nonce key");
    assert!(tx.nonce_key_slot().is_none(), "Non-AA tx should have no nonce key slot");
    assert!(!tx.is_aa_2d(), "Non-AA tx should not be AA 2D");
    assert!(tx.aa_transaction_id().is_none(), "Non-AA tx should have no AA transaction ID");
    assert!(tx.expiring_nonce_hash().is_none());
    assert!(tx.expiring_nonce_slot().is_none());
    assert!(!tx.is_expiring_nonce());
    assert!(tx.keychain_subject().is_none());
    assert!(tx.key_authorization_witness_subject().is_none());
}

#[test]
fn test_aa_transaction_with_zero_nonce_key() {
    let sender = address(1);
    let nonce = 5u64;
    let tx = TxBuilder::aa(sender).nonce(nonce).build();

    assert!(tx.is_aa(), "AA tx should be AA");
    assert_eq!(tx.nonce_key(), Some(U256::zero()), "Should have nonce_key = 0");
    assert!(!tx.is_aa_2d(), "AA tx with nonce_key=0 should NOT be 2D");

    // Check aa_transaction_id
    let aa_id = tx.aa_transaction_id().unwrap();
    assert_eq!(aa_id.seq_id.address, sender);
    assert_eq!(aa_id.seq_id.nonce_key, U256::zero());
    assert_eq!(aa_id.nonce, nonce);
}

#[test]
fn test_aa_transaction_with_nonzero_nonce_key() {
    let sender = address(1);
    let nonce_key = word(42);
    let nonce = 10u64;
    let tx = TxBuilder::aa(sender).nonce_key(nonce_key).nonce(nonce).build();

    assert!(tx.is_aa(), "AA tx should be AA");
    assert_eq!(tx.nonce_key(), Some(nonce_key), "Should have correct nonce_key");
    assert!(tx.is_aa_2d(), "AA tx with nonce_key > 0 should be 2D");

    // Check aa_transaction_id
    let aa_id = tx.aa_transaction_id().unwrap();
    assert_eq!(*aa_id.seq_id(), AASequenceId::new(sender, nonce_key));
    assert_eq!(aa_id.nonce, nonce);
}

#[test]
fn the_largest_nonce_key_marks_an_expiring_nonce() {
    let tx = TxBuilder::aa(address(1)).nonce_key(U256::max_value()).build();
    assert!(tx.is_expiring_nonce());
    assert!(tx.is_aa_2d());
    assert_eq!(tx.expiring_nonce_slot(), Some(word(0x5ee)));
    assert_eq!(tx.expiring_nonce_hash(), Some(B256::zero()));
    let below = U256 { hi: u128::MAX, lo: u128::MAX - 1 };
    assert!(!TxBuilder::aa(address(1)).nonce_key(below).build().is_expiring_nonce());
}

#[test]
fn test_nonce_key_slot_caching_for_2d_tx() {
    let sender = address(1);
    let nonce_key = word(123);
    let tx = TxBuilder::aa(sender).nonce_key(nonce_key).build();

    let expected_slot = tx.inner().nonce_slot;
    let slot1 = tx.nonce_key_slot();
    assert_eq!(slot1, Some(expected_slot));
    let slot2 = tx.nonce_key_slot();
    assert_eq!(slot2, Some(expected_slot));
    assert_eq!(slot1, slot2);
}

#[test]
fn test_requires_nonce_check() {
    let cases = [
        (TxBuilder::eip1559(address(1)).build(), true, "Non-AA should require nonce check"),
        (TxBuilder::aa(address(1)).build(), true, "AA with nonce_key=0 should require nonce check"),
        (
            TxBuilder::aa(address(1)).nonce_key(word(1)).build(),
            false,
            "AA with nonce_key > 0 should NOT require nonce check",
        ),
    ];

    for (tx, expected, msg) in cases {
        assert_eq!(tx.requires_nonce_check(), expected, "{msg}");
    }
}

#[test]
fn test_validate_blob_returns_not_blob_transaction() {
    let tx = TxBuilder::eip1559(address(1)).build();
    assert_eq!(
        tx.validate_blob(),
        Err(BlobTransactionValidationError::NotBlobTransaction(tx.inner.ty))
    );
}

#[test]
fn test_pool_transaction_hash_and_sender() {
    let sender = address(1);
    let tx = TxBuilder::aa(sender).build();

    assert!(!tx.hash().is_zero(), "Hash should not be zero");
    assert_eq!(tx.sender(), sender);
}

#[test]
fn test_pool_transaction_clone_into_consensus() {
    let sender = address(1);
    let tx = TxBuilder::aa(sender).build();
    let hash = *tx.hash();

    let cloned = tx.clone().into_consensus();
    assert_eq!(cloned.hash, hash);
    assert_eq!(cloned.sender, sender);
}

#[test]
fn test_pool_transaction_into_consensus() {
    let sender = address(1);
    let tx = TxBuilder::aa(sender).build();
    let hash = *tx.hash();

    let consensus = tx.into_consensus();
    assert_eq!(consensus.hash, hash);
    assert_eq!(consensus.sender, sender);
}

#[test]
fn test_pool_transaction_from_pooled() {
    let sender = address(1);
    let nonce = 42u64;
    let envelope = TxBuilder::aa(sender).nonce(nonce).envelope();

    let pooled = TempoPooledTransaction::from_pooled(envelope);
    assert_eq!(pooled.sender(), sender);
    assert_eq!(pooled.nonce(), nonce);
}

#[test]
fn test_transaction_trait_forwarding() {
    let tx = TxBuilder::aa(address(1)).value(word(500)).build();

    assert_eq!(tx.inner().chain_id, Some(42431));
    assert_eq!(tx.nonce(), 0);
    assert_eq!(tx.inner().gas_limit, 1_000_000);
    assert_eq!(tx.inner().max_fee_per_gas, 20_000_000_000);
    assert_eq!(tx.inner().max_priority_fee_per_gas, Some(1_000_000_000));
    assert!(tx.inner().is_dynamic_fee);
    assert_eq!(tx.encoded_length(), 200);
}

#[test]
fn test_cost_returns_zero() {
    let tx = TxBuilder::aa(address(1)).value(word(1000)).build();
    assert_eq!(tx.cost(), U256::zero());
}

#[test]
fn a_keychain_subject_names_account_key_and_token() {
    let signed = TxBuilder::aa(address(1)).change_aa(|aa| {
        aa.keychain_signature =
            Some(KeychainSignature { user_address: address(1), key_id: Some(address(2)) })
    });
    let mut tx = signed.build();
    assert_eq!(
        tx.keychain_subject(),
        Some(KeychainSubject {
            account: address(1),
            key_id: address(2),
            fee_token: default_fee_token(),
        })
    );

    // The resolved token wins over the named one
    tx.inner.fee_token = Some(address(3));
    assert_eq!(tx.keychain_subject().unwrap().fee_token, address(3));
    tx.set_resolved_fee_token(address(4));
    assert_eq!(tx.keychain_subject().unwrap().fee_token, address(4));

    // A key that could not be recovered gives no subject
    let unrecovered = TxBuilder::aa(address(1)).change_aa(|aa| {
        aa.keychain_signature = Some(KeychainSignature { user_address: address(1), key_id: None })
    });
    assert!(unrecovered.build().keychain_subject().is_none());
}

#[test]
fn a_witness_subject_needs_a_witness() {
    let witness = B256 { hi: 1, lo: 2 };
    let with_witness = TxBuilder::aa(address(1)).change_aa(|aa| {
        aa.key_authorization =
            Some(KeyAuthorization { witness: Some(witness), limits: None, allowed_calls: None })
    });
    assert_eq!(
        with_witness.build().key_authorization_witness_subject(),
        Some(KeyAuthorizationWitnessSubject { account: address(1), witness })
    );
    let without = TxBuilder::aa(address(1)).change_aa(|aa| {
        aa.key_authorization =
            Some(KeyAuthorization { witness: None, limits: None, allowed_calls: None })
    });
    assert!(without.build().key_authorization_witness_subject().is_none());
}

#[test]
fn what_is_looked_up_is_kept() {
    let mut tx = TxBuilder::aa(address(1)).fee_token(address(7)).build();
    assert_eq!(tx.key_expiry(), None);
    tx.set_key_expiry(Some(99));
    assert_eq!(tx.key_expiry(), Some(99));

    assert_eq!(tx.resolved_fee_token(), None);
    tx.set_resolved_fee_token(address(8));
    assert_eq!(tx.resolved_fee_token(), Some(address(8)));

    assert_eq!(tx.fee_balance_slot(), Some((address(8), word(0xba1))));
    assert_eq!(tx.fee_balance_slot(), Some((address(8), word(0xba1))));
}

#[test]
fn the_fee_balance_slot_is_settled_by_its_first_use() {
    let mut tx = TxBuilder::aa(address(1)).fee_token(address(7)).build();
    assert_eq!(tx.fee_balance_slot(), Some((address(7), word(0xba1))));
    tx.set_resolved_fee_token(address(8));
    assert_eq!(tx.resolved_fee_token(), Some(address(8)));
    assert_eq!(tx.fee_balance_slot(), Some((address(7), word(0xba1))));
}

#[test]
fn revoked_keys_are_found_by_account() {
    let mut revoked = RevokedKeys::new();
    assert!(revoked.is_empty());
    assert_eq!(revoked.len(), 0);
    revoked.insert(address(1), address(2));
    revoked.insert(address(1), address(3));
    revoked.insert(address(4), address(5));
    assert!(!revoked.is_empty());
    assert_eq!(revoked.len(), 3);
    assert!(revoked.contains(address(1), address(3)));
    assert!(!revoked.contains(address(4), address(3)));
    assert!(!revoked.contains(address(9), address(2)));

    let subject =
        KeychainSubject { account: address(4), key_id: address(5), fee_token: address(6) };
    assert!(subject.matches_revoked(&revoked));
    let other = KeychainSubject { key_id: address(2), ..subject };
    assert!(!other.matches_revoked(&revoked));
}

#[test]
fn a_limit_update_without_token_matches_every_token() {
    let mut updates = SpendingLimitUpdates::new();
    assert!(updates.is_empty());
    updates.insert(address(1), address(2), Some(address(3)));
    updates.insert(address(1), address(4), None);
    assert_eq!(updates.len(), 2);
    assert!(updates.contains(address(1), address(2), address(3)));
    assert!(!updates.contains(address(1), address(2), address(9)));
    assert!(updates.contains(address(1), address(4), address(9)));
    assert!(!updates.contains(address(2), address(4), address(9)));

    let subject =
        KeychainSubject { account: address(1), key_id: address(4), fee_token: address(6) };
    assert!(subject.matches_spending_limit_update(&updates));
    let other = KeychainSubject { key_id: address(2), ..subject };
    assert!(!other.matches_spending_limit_update(&updates));
}

#[test]
fn what_is_inserted_is_counted_and_found() {
    let inserts = [
        (address(1), address(2), Some(address(3))),
        (address(1), address(2), Some(address(3))),
        (address(1), address(2), None),
        (address(4), address(2), Some(address(5))),
    ];
    let mut updates = SpendingLimitUpdates::new();
    let mut revoked = RevokedKeys::new();
    for (i, (account, key_id, token)) in inserts.into_iter().enumerate() {
        assert_eq!(updates.len(), i);
        assert_eq!(updates.is_empty(), i == 0);
        updates.insert(account, key_id, token);
        revoked.insert(account, key_id);
        assert_eq!(revoked.len(), i + 1);
    }
    assert_eq!(updates.len(), 4);
    assert!(updates.contains(address(1), address(2), address(9)));
    assert!(updates.contains(address(4), address(2), address(5)));
    assert!(!updates.contains(address(4), address(2), address(9)));
    assert!(revoked.contains(address(4), address(2)));
    assert!(!revoked.contains(address(4), address(1)));
}

#[test]
fn long_transactions_from_outside_are_refused() {
    let limit = MAX_EXTERNAL_TX_ENCODED_LEN;
    assert_eq!(limit, 128 * 1024);
    let at_limit = TxBuilder::aa(address(1)).change(|tx| tx.encoded_length = limit).build();
    let above = TxBuilder::aa(address(1)).change(|tx| tx.encoded_length = limit + 1).build();
    assert_eq!(check_stateless(TransactionOrigin::External, &at_limit), Ok(()));
    assert_eq!(
        check_stateless(TransactionOrigin::External, &above),
        Err(InvalidPoolTransactionError::OversizedData { size: limit + 1, limit })
    );
    assert_eq!(check_stateless(TransactionOrigin::Local, &above), Ok(()));
    assert_eq!(check_stateless(TransactionOrigin::Private, &above), Ok(()));
}

#[test]
fn senders_without_balance_are_refused() {
    assert_eq!(check_stateful(None), Err(ProgrammaticPoolError::SenderStateUnavailable));
    assert_eq!(check_stateful(Some(None)), Err(ProgrammaticPoolError::ZeroBalanceSender));
    assert_eq!(
        check_stateful(Some(Some(U256::zero()))),
        Err(ProgrammaticPoolError::ZeroBalanceSender)
    );
    assert_eq!(check_stateful(Some(Some(word(1)))), Ok(()));
    assert!(!ProgrammaticPoolError::ZeroBalanceSender.is_bad_transaction());
}
