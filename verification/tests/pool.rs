//! The pool for transactions with two-dimensional nonces.
use std::collections::HashSet;
use std::sync::Arc;
use tempo_pool::best_2d::BestAA2dTransactions;
use tempo_pool::best_transactions::BestTransactions;
use tempo_pool::error::InvalidPoolTransactionError;
use tempo_pool::hardfork::TempoHardfork;
use tempo_pool::ids::{AA2dTransactionId, AASequenceId};
use tempo_pool::insertion::{AddedTransaction, SubPool};
use tempo_pool::ordered::SortedMap;
use tempo_pool::pending::{
    GetPooledTransactionLimit, InvalidTransactionError, PoolError, PoolErrorKind, PriceBumpConfig,
    SubPoolLimit,
};
use tempo_pool::pool::{AA2dPool, DEFAULT_MAX_TXS_PER_SENDER};
use tempo_pool::pool_state::AA2dPoolConfig;
use tempo_pool::primitives::{Address, B256, U256};
use tempo_pool::transaction::{
    Call, TempoPooledTransaction, TempoTransaction, TempoTxEnvelope, TransactionOrigin, TxKind,
    ValidPoolTransaction,
};
use tempo_pool::updates::AccountUpdate;

/// The base fee from hardfork T1 on.
const BASE_FEE: u64 = 20_000_000_000;

/// An address that ends in the bytes of `n`.
fn address(n: u128) -> Address {
    Address { hi: 0, lo: n }
}

/// The word that holds `n`.
fn word(n: u64) -> U256 {
    U256::from_u64(n)
}

/// The hash of some bytes.
fn digest(bytes: &[u8]) -> B256 {
    let hash = alloy_primitives::keccak256(bytes);
    let mut hi = [0u8; 16];
    let mut lo = [0u8; 16];
    hi.copy_from_slice(&hash[..16]);
    lo.copy_from_slice(&hash[16..]);
    B256 { hi: u128::from_be_bytes(hi), lo: u128::from_be_bytes(lo) }
}

/// The hash of some bytes, as a word.
fn slot(bytes: &[u8]) -> U256 {
    let hash = digest(bytes);
    U256 { hi: hash.hi, lo: hash.lo }
}

/// Builds account-abstraction transactions.
struct TxBuilder {
    sender: Address,
    nonce_key: U256,
    nonce: u64,
    max_priority_fee: u128,
    max_fee: u128,
    valid_before: Option<u64>,
    fee_payer_signature: (u64, u64),
}

impl TxBuilder {
    fn aa(sender: Address) -> Self {
        TxBuilder {
            sender,
            nonce_key: U256::zero(),
            nonce: 0,
            max_priority_fee: 1_000_000_000,
            max_fee: 20_000_000_000,
            valid_before: None,
            fee_payer_signature: (0, 0),
        }
    }

    fn nonce_key(mut self, nonce_key: U256) -> Self {
        self.nonce_key = nonce_key;
        self
    }

    fn nonce(mut self, nonce: u64) -> Self {
        self.nonce = nonce;
        self
    }

    fn max_priority_fee(mut self, fee: u128) -> Self {
        self.max_priority_fee = fee;
        self
    }

    fn max_fee(mut self, fee: u128) -> Self {
        self.max_fee = fee;
        self
    }

    fn valid_before(mut self, timestamp: u64) -> Self {
        self.valid_before = Some(timestamp);
        self
    }

    fn fee_payer_signature(mut self, r: u64, s: u64) -> Self {
        self.fee_payer_signature = (r, s);
        self
    }

    /// Everything that the sender signs, apart from the signature of the fee payer.
    fn signed_bytes(&self) -> Vec<u8> {
        let mut bytes = self.sequence_bytes();
        bytes.extend(self.nonce.to_be_bytes());
        bytes.extend(self.max_priority_fee.to_be_bytes());
        bytes.extend(self.max_fee.to_be_bytes());
        bytes.extend(self.valid_before.unwrap_or(0).to_be_bytes());
        bytes
    }

    fn sequence_bytes(&self) -> Vec<u8> {
        let mut bytes = Vec::new();
        bytes.extend(self.sender.hi.to_be_bytes());
        bytes.extend(self.sender.lo.to_be_bytes());
        bytes.extend(self.nonce_key.hi.to_be_bytes());
        bytes.extend(self.nonce_key.lo.to_be_bytes());
        bytes
    }

    fn build(self) -> TempoPooledTransaction {
        let signed = self.signed_bytes();
        let mut whole = signed.clone();
        whole.extend(self.fee_payer_signature.0.to_be_bytes());
        whole.extend(self.fee_payer_signature.1.to_be_bytes());
        let expiring_nonce_hash = digest(&signed);
        TempoPooledTransaction::new(TempoTxEnvelope {
            hash: digest(&whole),
            sender: self.sender,
            ty: 0x76,
            chain_id: Some(1),
            nonce: self.nonce,
            gas_limit: 1_000_000,
            max_fee_per_gas: self.max_fee,
            max_priority_fee_per_gas: Some(self.max_priority_fee),
            max_fee_per_blob_gas: None,
            value: U256::zero(),
            gas_spending: U256::from_u128(self.max_fee * 1_000_000 / 1_000_000_000_000),
            encoded_length: whole.len(),
            is_dynamic_fee: true,
            kind: TxKind::Create,
            input: Vec::new(),
            is_system_tx: false,
            is_payment: false,
            fee_token: None,
            fee_payer: Some(self.sender),
            fee_payer_balance_slot: slot(b"balance"),
            nonce_slot: slot(&self.sequence_bytes()),
            expiring_nonce_seen_slot: U256 { hi: expiring_nonce_hash.lo, lo: expiring_nonce_hash.hi },
            aa: Some(TempoTransaction {
                nonce_key: self.nonce_key,
                has_subblock_prefix: false,
                calls: vec![Call { to: TxKind::Call(address(0xca11)), value: U256::zero(), input: Vec::new() }],
                access_list: Vec::new(),
                tempo_authorization_list: Vec::new(),
                key_authorization: None,
                valid_before: self.valid_before,
                valid_after: None,
                keychain_signature: None,
                expiring_nonce_hash,
            }),
        })
    }
}

/// The account that holds the nonces.
const NONCE_MANAGER: Address = Address { hi: 0x4e4f_4e43, lo: 0x4500_0000_0000_0000_0000_0000_0000_0000 };

fn wrap_valid_tx(transaction: TempoPooledTransaction, origin: TransactionOrigin) -> ValidPoolTransaction {
    ValidPoolTransaction { transaction, propagate: true, origin }
}

/// Adds a local transaction at hardfork T1.
fn add(
    pool: &mut AA2dPool,
    transaction: TempoPooledTransaction,
    on_chain_nonce: u64,
) -> Result<AddedTransaction, PoolError> {
    let transaction = Arc::new(wrap_valid_tx(transaction, TransactionOrigin::Local));
    pool.add_transaction(transaction, on_chain_nonce, TempoHardfork::T1, BASE_FEE)
}

/// An iterator that is told from now on of what becomes pending.
fn live(pool: &mut AA2dPool) -> BestAA2dTransactions {
    pool.take_new_pending();
    pool.best_transactions()
}

/// Tells the iterator what became pending.
fn relay(pool: &mut AA2dPool, best: &mut BestAA2dTransactions) {
    for tx in pool.take_new_pending() {
        best.receive(tx);
    }
}

#[test]
fn insert_pending() {
    check_insert_pending(U256::zero());
    check_insert_pending(U256 { hi: 0xf2a74de452e6b438, lo: 0x6513270e269e0d37 });
}

fn check_insert_pending(nonce_key: U256) {
    let mut pool = AA2dPool::default();

    // Set up a sender with a tracked nonce key
    let sender = address(0x11);

    // Create a transaction with nonce_key=1, nonce=0 (should be pending)
    let tx = TxBuilder::aa(sender).nonce_key(nonce_key).build();
    let valid_tx = wrap_valid_tx(tx, TransactionOrigin::Local);

    // Add the transaction to the pool
    let result = pool.add_transaction(Arc::new(valid_tx), 0, TempoHardfork::T1, BASE_FEE);

    // Should be added as pending
    assert!(result.is_ok(), "Transaction should be added successfully");
    let added = result.unwrap();
    assert!(
        matches!(added, AddedTransaction::Pending(_)),
        "Transaction should be pending, got: {added:?}"
    );

    // Verify pool state
    let (pending_count, queued_count) = pool.pending_and_queued_txn_count();
    assert_eq!(pending_count, 1, "Should have 1 pending transaction");
    assert_eq!(queued_count, 0, "Should have 0 queued transactions");

    assert!(pool.invariants_hold());
}

#[test]
fn insert_with_nonce_gap_then_fill() {
    check_insert_with_nonce_gap_then_fill(U256::zero());
    check_insert_with_nonce_gap_then_fill(U256 { hi: 0xc5c7fd0a6a3a450, lo: 0xd23f0824128b2f33 });
}

fn check_insert_with_nonce_gap_then_fill(nonce_key: U256) {
    let mut pool = AA2dPool::default();

    // Set up a sender with a tracked nonce key
    let sender = address(0x12);

    // Step 1: Insert transaction with nonce=1 (creates a gap, should be queued)
    let tx1 = TxBuilder::aa(sender).nonce_key(nonce_key).nonce(1).build();
    let valid_tx1 = wrap_valid_tx(tx1, TransactionOrigin::Local);
    let tx1_hash = *valid_tx1.hash();

    let result1 = pool.add_transaction(Arc::new(valid_tx1), 0, TempoHardfork::T1, BASE_FEE);

    // Should be queued due to nonce gap
    assert!(
        result1.is_ok(),
        "Transaction 1 should be added successfully"
    );
    let added1 = result1.unwrap();
    assert!(
        matches!(
            added1,
            AddedTransaction::Parked {
                subpool: SubPool::Queued,
                ..
            }
        ),
        "Transaction 1 should be queued due to nonce gap, got: {added1:?}"
    );

    // Verify pool state after first insert
    let (pending_count, queued_count) = pool.pending_and_queued_txn_count();
    assert_eq!(pending_count, 0, "Should have 0 pending transactions");
    assert_eq!(queued_count, 1, "Should have 1 queued transaction");

    // Verify tx1 is NOT in independent set
    let seq_id = AASequenceId::new(sender, nonce_key);
    let tx1_id = AA2dTransactionId::new(seq_id, 1);
    assert!(
        !pool.independent_transactions.contains_key(&tx1_id.seq_id),
        "Transaction 1 should not be in independent set yet"
    );

    assert!(pool.invariants_hold());

    // Step 2: Insert transaction with nonce=0 (fills the gap)
    let tx0 = TxBuilder::aa(sender).nonce_key(nonce_key).build();
    let valid_tx0 = wrap_valid_tx(tx0, TransactionOrigin::Local);
    let tx0_hash = *valid_tx0.hash();

    let result0 = pool.add_transaction(Arc::new(valid_tx0), 0, TempoHardfork::T1, BASE_FEE);

    // Should be pending and promote tx1
    assert!(
        result0.is_ok(),
        "Transaction 0 should be added successfully"
    );
    let added0 = result0.unwrap();

    // Verify it's pending and promoted tx1
    match added0 {
        AddedTransaction::Pending(ref pending) => {
            assert_eq!(pending.transaction.hash(), &tx0_hash, "Should be tx0");
            assert_eq!(
                pending.promoted.len(),
                1,
                "Should have promoted 1 transaction"
            );
            assert_eq!(
                pending.promoted[0].hash(),
                &tx1_hash,
                "Should have promoted tx1"
            );
        }
        _ => panic!("Transaction 0 should be pending, got: {added0:?}"),
    }

    // Verify pool state after filling the gap
    let (pending_count, queued_count) = pool.pending_and_queued_txn_count();
    assert_eq!(pending_count, 2, "Should have 2 pending transactions");
    assert_eq!(queued_count, 0, "Should have 0 queued transactions");

    // Verify both transactions are now pending
    let tx0_id = AA2dTransactionId::new(seq_id, 0);
    assert!(
        pool.by_id.get(&tx0_id).unwrap().is_pending(),
        "Transaction 0 should be pending"
    );
    assert!(
        pool.by_id.get(&tx1_id).unwrap().is_pending(),
        "Transaction 1 should be pending after promotion"
    );

    // Verify tx0 (at on-chain nonce) is in independent set
    assert!(
        pool.independent_transactions.contains_key(&tx0_id.seq_id),
        "Transaction 0 should be in independent set (at on-chain nonce)"
    );

    // Verify the independent transaction for this sequence is tx0, not tx1
    let independent_tx = pool.independent_transactions.get(&seq_id).unwrap();
    assert_eq!(
        independent_tx.transaction.hash(),
        &tx0_hash,
        "Independent transaction should be tx0, not tx1"
    );

    assert!(pool.invariants_hold());
}

#[test]
fn replace_pending_transaction() {
    check_replace_pending_transaction(U256::zero());
    check_replace_pending_transaction(U256 { hi: 0x1818e811892f902b, lo: 0x9531985d5d9dc9f8 });
}

fn check_replace_pending_transaction(nonce_key: U256) {
    let mut pool = AA2dPool::default();

    // Set up a sender with a tracked nonce key
    let sender = address(0x13);

    // Step 1: Insert initial pending transaction with lower gas price
    let tx_low = TxBuilder::aa(sender)
        .nonce_key(nonce_key)
        .max_priority_fee(1_000_000_000)
        .max_fee(2_000_000_000)
        .build();
    let valid_tx_low = wrap_valid_tx(tx_low, TransactionOrigin::Local);
    let tx_low_hash = *valid_tx_low.hash();

    let result_low = pool.add_transaction(Arc::new(valid_tx_low), 0, TempoHardfork::T1, BASE_FEE);

    // Should be pending (at on-chain nonce)
    assert!(
        result_low.is_ok(),
        "Initial transaction should be added successfully"
    );
    let added_low = result_low.unwrap();
    assert!(
        matches!(added_low, AddedTransaction::Pending(_)),
        "Initial transaction should be pending"
    );

    // Verify initial state
    let (pending_count, queued_count) = pool.pending_and_queued_txn_count();
    assert_eq!(pending_count, 1, "Should have 1 pending transaction");
    assert_eq!(queued_count, 0, "Should have 0 queued transactions");

    // Verify tx_low is in independent set
    let seq_id = AASequenceId::new(sender, nonce_key);
    let tx_id = AA2dTransactionId::new(seq_id, 0);
    assert!(
        pool.independent_transactions.contains_key(&tx_id.seq_id),
        "Initial transaction should be in independent set"
    );

    // Verify the transaction in independent set is tx_low
    let independent_tx = pool.independent_transactions.get(&tx_id.seq_id).unwrap();
    assert_eq!(
        independent_tx.transaction.hash(),
        &tx_low_hash,
        "Independent set should contain tx_low"
    );

    assert!(pool.invariants_hold());

    // Step 2: Replace with higher gas price transaction
    // Price bump needs to be at least 10% higher (default price bump config)
    let tx_high = TxBuilder::aa(sender)
        .nonce_key(nonce_key)
        .max_priority_fee(1_200_000_000)
        .max_fee(2_400_000_000)
        .build();
    let valid_tx_high = wrap_valid_tx(tx_high, TransactionOrigin::Local);
    let tx_high_hash = *valid_tx_high.hash();

    let result_high = pool.add_transaction(Arc::new(valid_tx_high), 0, TempoHardfork::T1, BASE_FEE);

    // Should successfully replace
    assert!(
        result_high.is_ok(),
        "Replacement transaction should be added successfully"
    );
    let added_high = result_high.unwrap();

    // Verify it's pending and replaced the old transaction
    match added_high {
        AddedTransaction::Pending(ref pending) => {
            assert_eq!(
                pending.transaction.hash(),
                &tx_high_hash,
                "Should be tx_high"
            );
            assert!(
                pending.replaced.is_some(),
                "Should have replaced a transaction"
            );
            assert_eq!(
                pending.replaced.as_ref().unwrap().hash(),
                &tx_low_hash,
                "Should have replaced tx_low"
            );
        }
        _ => panic!("Replacement transaction should be pending, got: {added_high:?}"),
    }

    // Verify pool state - still 1 pending, 0 queued
    let (pending_count, queued_count) = pool.pending_and_queued_txn_count();
    assert_eq!(
        pending_count, 1,
        "Should still have 1 pending transaction after replacement"
    );
    assert_eq!(queued_count, 0, "Should still have 0 queued transactions");

    // Verify old transaction is no longer in the pool
    assert!(
        !pool.contains(&tx_low_hash),
        "Old transaction should be removed from pool"
    );

    // Verify new transaction is in the pool
    assert!(
        pool.contains(&tx_high_hash),
        "New transaction should be in pool"
    );

    // Verify independent set is updated with new transaction
    assert!(
        pool.independent_transactions.contains_key(&tx_id.seq_id),
        "Transaction ID should still be in independent set"
    );

    let independent_tx_after = pool.independent_transactions.get(&tx_id.seq_id).unwrap();
    assert_eq!(
        independent_tx_after.transaction.hash(),
        &tx_high_hash,
        "Independent set should now contain tx_high (not tx_low)"
    );

    // Verify the transaction in by_id is the new one
    let tx_in_pool = pool.by_id.get(&tx_id).unwrap();
    assert_eq!(
        tx_in_pool.inner.transaction.hash(),
        &tx_high_hash,
        "Transaction in by_id should be tx_high"
    );
    assert!(tx_in_pool.is_pending(), "Transaction should be pending");

    assert!(pool.invariants_hold());
}

#[test]
fn on_chain_nonce_update_with_gaps() {
    check_on_chain_nonce_update_with_gaps(U256::zero());
    check_on_chain_nonce_update_with_gaps(U256 { hi: 0xe8e25d940ed90475, lo: 0x36f675cc81e74ef5 });
}

fn check_on_chain_nonce_update_with_gaps(nonce_key: U256) {
    let mut pool = AA2dPool::default();

    // Set up a sender with a tracked nonce key
    let sender = address(0x14);

    // Insert transactions with nonces: 0, 1, 3, 4, 6
    // Expected initial state:
    // - 0, 1: pending (consecutive from on-chain nonce 0)
    // - 3, 4, 6: queued (gaps at nonce 2 and 5)
    let tx0 = TxBuilder::aa(sender).nonce_key(nonce_key).build();
    let tx1 = TxBuilder::aa(sender).nonce_key(nonce_key).nonce(1).build();
    let tx3 = TxBuilder::aa(sender).nonce_key(nonce_key).nonce(3).build();
    let tx4 = TxBuilder::aa(sender).nonce_key(nonce_key).nonce(4).build();
    let tx6 = TxBuilder::aa(sender).nonce_key(nonce_key).nonce(6).build();

    let valid_tx0 = wrap_valid_tx(tx0, TransactionOrigin::Local);
    let valid_tx1 = wrap_valid_tx(tx1, TransactionOrigin::Local);
    let valid_tx3 = wrap_valid_tx(tx3, TransactionOrigin::Local);
    let valid_tx4 = wrap_valid_tx(tx4, TransactionOrigin::Local);
    let valid_tx6 = wrap_valid_tx(tx6, TransactionOrigin::Local);

    let tx0_hash = *valid_tx0.hash();
    let tx1_hash = *valid_tx1.hash();
    let tx3_hash = *valid_tx3.hash();
    let tx4_hash = *valid_tx4.hash();
    let tx6_hash = *valid_tx6.hash();

    // Add all transactions
    pool.add_transaction(Arc::new(valid_tx0), 0, TempoHardfork::T1, BASE_FEE)
        .unwrap();
    pool.add_transaction(Arc::new(valid_tx1), 0, TempoHardfork::T1, BASE_FEE)
        .unwrap();
    pool.add_transaction(Arc::new(valid_tx3), 0, TempoHardfork::T1, BASE_FEE)
        .unwrap();
    pool.add_transaction(Arc::new(valid_tx4), 0, TempoHardfork::T1, BASE_FEE)
        .unwrap();
    pool.add_transaction(Arc::new(valid_tx6), 0, TempoHardfork::T1, BASE_FEE)
        .unwrap();

    // Verify initial state
    let (pending_count, queued_count) = pool.pending_and_queued_txn_count();
    assert_eq!(
        pending_count, 2,
        "Should have 2 pending transactions (0, 1)"
    );
    assert_eq!(
        queued_count, 3,
        "Should have 3 queued transactions (3, 4, 6)"
    );

    // Verify tx0 is in independent set
    let seq_id = AASequenceId::new(sender, nonce_key);
    let tx0_id = AA2dTransactionId::new(seq_id, 0);
    assert!(
        pool.independent_transactions.contains_key(&tx0_id.seq_id),
        "Transaction 0 should be in independent set"
    );

    assert!(pool.invariants_hold());

    // Step 1: Simulate mining block with nonces 0 and 1
    // New on-chain nonce becomes 2
    let mut on_chain_ids = SortedMap::new();
    on_chain_ids.insert(seq_id, 2u64);

    let (promoted, mined) = pool.on_nonce_changes(&on_chain_ids);

    // Verify mined transactions
    assert_eq!(mined.len(), 2, "Should have mined 2 transactions (0, 1)");
    let mined_hashes: HashSet<_> = mined.iter().map(|tx| tx.hash()).collect();
    assert!(
        mined_hashes.contains(&tx0_hash),
        "Transaction 0 should be mined"
    );
    assert!(
        mined_hashes.contains(&tx1_hash),
        "Transaction 1 should be mined"
    );

    // No transactions should be promoted (there's a gap at nonce 2)
    assert_eq!(
        promoted.len(),
        0,
        "No transactions should be promoted (gap at nonce 2)"
    );

    // Verify pool state after mining
    let (pending_count, queued_count) = pool.pending_and_queued_txn_count();
    assert_eq!(
        pending_count, 0,
        "Should have 0 pending transactions (gap at nonce 2)"
    );
    assert_eq!(
        queued_count, 3,
        "Should have 3 queued transactions (3, 4, 6)"
    );

    // Verify mined transactions are removed
    assert!(!pool.contains(&tx0_hash), "Transaction 0 should be removed");
    assert!(!pool.contains(&tx1_hash), "Transaction 1 should be removed");

    // Verify remaining transactions are still in pool
    assert!(pool.contains(&tx3_hash), "Transaction 3 should remain");
    assert!(pool.contains(&tx4_hash), "Transaction 4 should remain");
    assert!(pool.contains(&tx6_hash), "Transaction 6 should remain");

    // Verify all remaining transactions are queued (not pending)
    let tx3_id = AA2dTransactionId::new(seq_id, 3);
    let tx4_id = AA2dTransactionId::new(seq_id, 4);
    let tx6_id = AA2dTransactionId::new(seq_id, 6);

    assert!(
        !pool.by_id.get(&tx3_id).unwrap().is_pending(),
        "Transaction 3 should be queued (gap at nonce 2)"
    );
    assert!(
        !pool.by_id.get(&tx4_id).unwrap().is_pending(),
        "Transaction 4 should be queued"
    );
    assert!(
        !pool.by_id.get(&tx6_id).unwrap().is_pending(),
        "Transaction 6 should be queued"
    );

    // Verify independent set is empty (no transaction at on-chain nonce)
    assert!(
        pool.independent_transactions.is_empty(),
        "Independent set should be empty (gap at on-chain nonce 2)"
    );

    assert!(pool.invariants_hold());

    // Step 2: Simulate mining block with nonce 2
    // New on-chain nonce becomes 3
    let mut on_chain_ids = SortedMap::new();
    on_chain_ids.insert(seq_id, 3u64);

    let (promoted, mined) = pool.on_nonce_changes(&on_chain_ids);

    // No transactions should be mined (nonce 2 was never in pool)
    assert_eq!(
        mined.len(),
        0,
        "No transactions should be mined (nonce 2 was never in pool)"
    );

    // Transactions 3 and 4 should be promoted
    assert_eq!(promoted.len(), 2, "Transactions 3 and 4 should be promoted");
    let promoted_hashes: HashSet<_> = promoted.iter().map(|tx| tx.hash()).collect();
    assert!(
        promoted_hashes.contains(&tx3_hash),
        "Transaction 3 should be promoted"
    );
    assert!(
        promoted_hashes.contains(&tx4_hash),
        "Transaction 4 should be promoted"
    );

    // Verify pool state after second update
    let (pending_count, queued_count) = pool.pending_and_queued_txn_count();
    assert_eq!(
        pending_count, 2,
        "Should have 2 pending transactions (3, 4)"
    );
    assert_eq!(queued_count, 1, "Should have 1 queued transaction (6)");

    // Verify transactions 3 and 4 are now pending
    assert!(
        pool.by_id.get(&tx3_id).unwrap().is_pending(),
        "Transaction 3 should be pending"
    );
    assert!(
        pool.by_id.get(&tx4_id).unwrap().is_pending(),
        "Transaction 4 should be pending"
    );

    // Verify transaction 6 is still queued
    assert!(
        !pool.by_id.get(&tx6_id).unwrap().is_pending(),
        "Transaction 6 should still be queued (gap at nonce 5)"
    );

    // Verify transaction 3 is the independent transaction (at on-chain nonce)
    assert!(
        pool.independent_transactions.contains_key(&tx3_id.seq_id),
        "Transaction 3 should be in independent set (at on-chain nonce 3)"
    );

    // Verify the independent transaction is tx3 specifically, not tx4 or tx6
    let independent_tx = pool.independent_transactions.get(&seq_id).unwrap();
    assert_eq!(
        independent_tx.transaction.hash(),
        &tx3_hash,
        "Independent transaction should be tx3 (nonce 3), not tx4 or tx6"
    );

    assert!(pool.invariants_hold());
}

#[test]
fn reject_outdated_transaction() {
    check_reject_outdated_transaction(U256::zero());
    check_reject_outdated_transaction(U256 { hi: 0x1600a35a099950d8, lo: 0x6b0d549b6f03675a });
}

fn check_reject_outdated_transaction(nonce_key: U256) {
    let mut pool = AA2dPool::default();

    // Set up a sender with a tracked nonce key
    let sender = address(0x15);

    // Create a transaction with nonce 3 (outdated)
    let tx = TxBuilder::aa(sender).nonce_key(nonce_key).nonce(3).build();
    let valid_tx = wrap_valid_tx(tx, TransactionOrigin::Local);

    // Try to insert it and specify the on-chain nonce 5, making it outdated
    let result = pool.add_transaction(Arc::new(valid_tx), 5, TempoHardfork::T1, BASE_FEE);

    // Should fail with nonce error
    assert!(result.is_err(), "Should reject outdated transaction");

    let err = result.unwrap_err();
    assert!(
        matches!(
            err.kind,
            PoolErrorKind::InvalidTransaction(InvalidTransactionError::NonceNotConsistent { tx: 3, state: 5 })
        ),
        "Should fail with NonceNotConsistent error, got: {:?}",
        err.kind
    );

    // Pool should remain empty
    let (pending_count, queued_count) = pool.pending_and_queued_txn_count();
    assert_eq!(pending_count, 0, "Pool should be empty");
    assert_eq!(queued_count, 0, "Pool should be empty");

    assert!(pool.invariants_hold());
}

#[test]
fn replace_with_insufficient_price_bump() {
    check_replace_with_insufficient_price_bump(U256::zero());
    check_replace_with_insufficient_price_bump(U256 { hi: 0x3d9c172411e20b8f, lo: 0x8d116ece1738f7d9 });
}

fn check_replace_with_insufficient_price_bump(nonce_key: U256) {
    let mut pool = AA2dPool::default();

    // Set up a sender
    let sender = address(0x16);

    // Insert initial transaction
    let tx_low = TxBuilder::aa(sender)
        .nonce_key(nonce_key)
        .max_priority_fee(1_000_000_000)
        .max_fee(2_000_000_000)
        .build();
    let valid_tx_low = wrap_valid_tx(tx_low, TransactionOrigin::Local);

    pool.add_transaction(Arc::new(valid_tx_low), 0, TempoHardfork::T1, BASE_FEE)
        .unwrap();

    // Try to replace with only 5% price bump (default requires 10%)
    let tx_insufficient = TxBuilder::aa(sender)
        .nonce_key(nonce_key)
        .max_priority_fee(1_050_000_000)
        .max_fee(2_100_000_000)
        .build();
    let valid_tx_insufficient = wrap_valid_tx(tx_insufficient, TransactionOrigin::Local);

    let result = pool.add_transaction(Arc::new(valid_tx_insufficient), 0, TempoHardfork::T1, BASE_FEE);

    // Should fail with ReplacementUnderpriced
    assert!(
        result.is_err(),
        "Should reject replacement with insufficient price bump"
    );
    let err = result.unwrap_err();
    assert!(
        matches!(err.kind, PoolErrorKind::ReplacementUnderpriced),
        "Should fail with ReplacementUnderpriced, got: {:?}",
        err.kind
    );

    assert!(pool.invariants_hold());
}

#[test]
fn fill_gap_in_middle() {
    check_fill_gap_in_middle(U256::zero());
    check_fill_gap_in_middle(U256 { hi: 0xf21ddb66cad4a26, lo: 0x90c192cfd3ac94af });
}

fn check_fill_gap_in_middle(nonce_key: U256) {
    let mut pool = AA2dPool::default();

    let sender = address(0x17);

    // Insert transactions: 0, 1, 3, 4 (gap at 2)
    let tx0 = TxBuilder::aa(sender).nonce_key(nonce_key).build();
    let tx1 = TxBuilder::aa(sender).nonce_key(nonce_key).nonce(1).build();
    let tx3 = TxBuilder::aa(sender).nonce_key(nonce_key).nonce(3).build();
    let tx4 = TxBuilder::aa(sender).nonce_key(nonce_key).nonce(4).build();

    add(&mut pool, tx0, 0).unwrap();
    add(&mut pool, tx1, 0).unwrap();
    add(&mut pool, tx3, 0).unwrap();
    add(&mut pool, tx4, 0).unwrap();

    // Verify initial state: 0, 1 pending | 3, 4 queued
    let (pending_count, queued_count) = pool.pending_and_queued_txn_count();
    assert_eq!(pending_count, 2, "Should have 2 pending (0, 1)");
    assert_eq!(queued_count, 2, "Should have 2 queued (3, 4)");

    // Fill the gap with nonce 2
    let tx2 = TxBuilder::aa(sender).nonce_key(nonce_key).nonce(2).build();
    let valid_tx2 = wrap_valid_tx(tx2, TransactionOrigin::Local);

    let result = pool.add_transaction(Arc::new(valid_tx2), 0, TempoHardfork::T1, BASE_FEE);
    assert!(result.is_ok(), "Should successfully add tx2");

    // Verify tx3 and tx4 were promoted
    match result.unwrap() {
        AddedTransaction::Pending(ref pending) => {
            assert_eq!(pending.promoted.len(), 2, "Should promote tx3 and tx4");
        }
        _ => panic!("tx2 should be added as pending"),
    }

    // Verify all transactions are now pending
    let (pending_count, queued_count) = pool.pending_and_queued_txn_count();
    assert_eq!(pending_count, 5, "All 5 transactions should be pending");
    assert_eq!(queued_count, 0, "No transactions should be queued");

    // Verify tx0 is in independent set
    let seq_id = AASequenceId::new(sender, nonce_key);
    let tx0_id = AA2dTransactionId::new(seq_id, 0);
    assert!(
        pool.independent_transactions.contains_key(&tx0_id.seq_id),
        "tx0 should be in independent set"
    );

    assert!(pool.invariants_hold());
}

#[test]
fn remove_pending_transaction() {
    check_remove_pending_transaction(U256::zero());
    check_remove_pending_transaction(U256 { hi: 0xf28c105d1fb17c23, lo: 0xa170b33839263059 });
}

fn check_remove_pending_transaction(nonce_key: U256) {
    let mut pool = AA2dPool::default();

    let sender = address(0x18);

    // Insert consecutive transactions: 0, 1, 2
    let tx0 = TxBuilder::aa(sender).nonce_key(nonce_key).build();
    let tx1 = TxBuilder::aa(sender).nonce_key(nonce_key).nonce(1).build();
    let tx2 = TxBuilder::aa(sender).nonce_key(nonce_key).nonce(2).build();

    let valid_tx0 = wrap_valid_tx(tx0, TransactionOrigin::Local);
    let valid_tx1 = wrap_valid_tx(tx1, TransactionOrigin::Local);
    let valid_tx2 = wrap_valid_tx(tx2, TransactionOrigin::Local);

    let tx1_hash = *valid_tx1.hash();

    pool.add_transaction(Arc::new(valid_tx0), 0, TempoHardfork::T1, BASE_FEE)
        .unwrap();
    pool.add_transaction(Arc::new(valid_tx1), 0, TempoHardfork::T1, BASE_FEE)
        .unwrap();
    pool.add_transaction(Arc::new(valid_tx2), 0, TempoHardfork::T1, BASE_FEE)
        .unwrap();

    // All should be pending
    let (pending_count, queued_count) = pool.pending_and_queued_txn_count();
    assert_eq!(pending_count, 3, "All 3 should be pending");
    assert_eq!(queued_count, 0, "None should be queued");

    let seq_id = AASequenceId::new(sender, nonce_key);
    let tx1_id = AA2dTransactionId::new(seq_id, 1);
    let tx2_id = AA2dTransactionId::new(seq_id, 2);

    // Verify tx2 is pending before removal
    assert!(
        pool.by_id.get(&tx2_id).unwrap().is_pending(),
        "tx2 should be pending before removal"
    );

    // Remove tx1 (creates a gap)
    let removed = pool.remove_transactions(&[tx1_hash]);
    assert_eq!(removed.len(), 1, "Should remove tx1");

    // Verify tx1 is removed from pool
    assert!(!pool.by_id.contains_key(&tx1_id), "tx1 should be removed");
    assert!(!pool.contains(&tx1_hash), "tx1 should be removed");

    // Verify tx0 and tx2 remain
    assert_eq!(pool.by_id.len(), 2, "Should have 2 transactions left");

    // Verify tx2 is now demoted to queued since tx1 removal creates a gap
    assert!(
        !pool.by_id.get(&tx2_id).unwrap().is_pending(),
        "tx2 should be demoted to queued after tx1 removal creates a gap"
    );

    // Verify counts: tx0 is pending, tx2 is queued
    let (pending_count, queued_count) = pool.pending_and_queued_txn_count();
    assert_eq!(pending_count, 1, "Only tx0 should be pending");
    assert_eq!(queued_count, 1, "tx2 should be queued");

    assert!(pool.invariants_hold());
}

#[test]
fn multiple_senders_independent_set() {
    check_multiple_senders_independent_set(U256::zero(), U256 { hi: 0x953f48f1a09f76b5, lo: 0xfd630f1f29d0da9 });
    check_multiple_senders_independent_set(U256 { hi: 0x95e60af593bd04cf, lo: 0xcb1e29c658cda14 }, U256::zero());
    check_multiple_senders_independent_set(U256 { hi: 0x3898d190f9ebdacc, lo: 0x8e81973e0becd7b0 }, U256 { hi: 0x2217beaddbc496cb, lo: 0x6b4cb2424a23d596 });
}

fn check_multiple_senders_independent_set(nonce_key_a: U256, nonce_key_b: U256) {
    let mut pool = AA2dPool::default();

    // Set up two senders with different nonce keys
    let sender_a = address(0x19);
    let sender_b = address(0x1a);

    // Insert transactions for both senders
    // Sender A: [0, 1]
    let tx_a0 = TxBuilder::aa(sender_a).nonce_key(nonce_key_a).build();
    let tx_a1 = TxBuilder::aa(sender_a)
        .nonce_key(nonce_key_a)
        .nonce(1)
        .build();

    // Sender B: [0, 1]
    let tx_b0 = TxBuilder::aa(sender_b).nonce_key(nonce_key_b).build();
    let tx_b1 = TxBuilder::aa(sender_b)
        .nonce_key(nonce_key_b)
        .nonce(1)
        .build();

    let valid_tx_a0 = wrap_valid_tx(tx_a0, TransactionOrigin::Local);
    let valid_tx_a1 = wrap_valid_tx(tx_a1, TransactionOrigin::Local);
    let valid_tx_b0 = wrap_valid_tx(tx_b0, TransactionOrigin::Local);
    let valid_tx_b1 = wrap_valid_tx(tx_b1, TransactionOrigin::Local);

    let tx_a0_hash = *valid_tx_a0.hash();

    pool.add_transaction(Arc::new(valid_tx_a0), 0, TempoHardfork::T1, BASE_FEE)
        .unwrap();
    pool.add_transaction(Arc::new(valid_tx_a1), 0, TempoHardfork::T1, BASE_FEE)
        .unwrap();
    pool.add_transaction(Arc::new(valid_tx_b0), 0, TempoHardfork::T1, BASE_FEE)
        .unwrap();
    pool.add_transaction(Arc::new(valid_tx_b1), 0, TempoHardfork::T1, BASE_FEE)
        .unwrap();

    // Both senders' tx0 should be in independent set
    let sender_a_id = AASequenceId::new(sender_a, nonce_key_a);
    let sender_b_id = AASequenceId::new(sender_b, nonce_key_b);
    let tx_a0_id = AA2dTransactionId::new(sender_a_id, 0);
    let tx_b0_id = AA2dTransactionId::new(sender_b_id, 0);

    assert_eq!(
        pool.independent_transactions.len(),
        2,
        "Should have 2 independent transactions"
    );
    assert!(
        pool.independent_transactions.contains_key(&tx_a0_id.seq_id),
        "Sender A's tx0 should be independent"
    );
    assert!(
        pool.independent_transactions.contains_key(&tx_b0_id.seq_id),
        "Sender B's tx0 should be independent"
    );

    // All 4 transactions should be pending
    let (pending_count, queued_count) = pool.pending_and_queued_txn_count();
    assert_eq!(pending_count, 4, "All 4 transactions should be pending");
    assert_eq!(queued_count, 0, "No transactions should be queued");

    // Simulate mining sender A's tx0
    let mut on_chain_ids = SortedMap::new();
    on_chain_ids.insert(sender_a_id, 1u64);

    let (promoted, mined) = pool.on_nonce_changes(&on_chain_ids);

    // Only sender A's tx0 should be mined
    assert_eq!(mined.len(), 1, "Only sender A's tx0 should be mined");
    assert_eq!(mined[0].hash(), &tx_a0_hash, "Should mine tx_a0");

    // No transactions should be promoted (tx_a1 was already pending)
    assert_eq!(
        promoted.len(),
        0,
        "No transactions should be promoted (tx_a1 was already pending)"
    );

    // Verify independent set now has A's tx1 and B's tx0
    let tx_a1_id = AA2dTransactionId::new(sender_a_id, 1);
    assert_eq!(
        pool.independent_transactions.len(),
        2,
        "Should still have 2 independent transactions"
    );
    assert!(
        pool.independent_transactions.contains_key(&tx_a1_id.seq_id),
        "Sender A's tx1 should now be independent"
    );
    assert!(
        pool.independent_transactions.contains_key(&tx_b0_id.seq_id),
        "Sender B's tx0 should still be independent"
    );

    assert!(pool.invariants_hold());
}

#[test]
fn concurrent_replacements_same_nonce() {
    check_concurrent_replacements_same_nonce(U256::zero());
    check_concurrent_replacements_same_nonce(U256 { hi: 0x8a6a63ec24ede6a4, lo: 0x922766581e27a1c0 });
}

fn check_concurrent_replacements_same_nonce(nonce_key: U256) {
    let mut pool = AA2dPool::default();
    let sender = address(0x1b);
    let seq_id = AASequenceId {
        address: sender,
        nonce_key,
    };

    // Insert initial transaction at nonce 0 with gas prices 1_000_000_000, 2_000_000_000
    let tx0 = TxBuilder::aa(sender)
        .nonce_key(nonce_key)
        .max_priority_fee(1_000_000_000)
        .max_fee(2_000_000_000)
        .build();
    let tx0_hash = *tx0.hash();
    let valid_tx0 = wrap_valid_tx(tx0, TransactionOrigin::Local);
    let result = pool.add_transaction(Arc::new(valid_tx0), 0, TempoHardfork::T1, BASE_FEE);
    assert!(result.is_ok());
    let (pending_count, queued_count) = pool.pending_and_queued_txn_count();
    assert_eq!(pending_count + queued_count, 1);

    // Try to replace with slightly higher gas (1_050_000_000, 2_100_000_000 = ~5% bump) - should fail (< 10% bump)
    let tx0_replacement1 = TxBuilder::aa(sender)
        .nonce_key(nonce_key)
        .max_priority_fee(1_050_000_000)
        .max_fee(2_100_000_000)
        .build();
    let valid_tx1 = wrap_valid_tx(tx0_replacement1, TransactionOrigin::Local);
    let result = pool.add_transaction(Arc::new(valid_tx1), 0, TempoHardfork::T1, BASE_FEE);
    assert!(result.is_err(), "Should reject insufficient price bump");
    let (pending_count, queued_count) = pool.pending_and_queued_txn_count();
    assert_eq!(pending_count + queued_count, 1);
    assert!(
        pool.contains(&tx0_hash),
        "The first tx should still be present"
    );

    // Replace with sufficient bump (1_100_000_000, 2_200_000_000 = 10% bump)
    let tx0_replacement2 = TxBuilder::aa(sender)
        .nonce_key(nonce_key)
        .max_priority_fee(1_100_000_000)
        .max_fee(2_200_000_000)
        .build();
    let tx0_replacement2_hash = *tx0_replacement2.hash();
    let valid_tx2 = wrap_valid_tx(tx0_replacement2, TransactionOrigin::Local);
    let result = pool.add_transaction(Arc::new(valid_tx2), 0, TempoHardfork::T1, BASE_FEE);
    assert!(result.is_ok(), "Should accept 10% price bump");
    let (pending_count, queued_count) = pool.pending_and_queued_txn_count();
    assert_eq!(pending_count + queued_count, 1, "Pool size should remain 1");
    assert!(!pool.contains(&tx0_hash), "Old tx should be removed");
    assert!(
        pool.contains(&tx0_replacement2_hash),
        "New tx should be present"
    );

    // Try to replace with even higher gas (1_500_000_000, 3_000_000_000 = ~36% bump over the first)
    let tx0_replacement3 = TxBuilder::aa(sender)
        .nonce_key(nonce_key)
        .max_priority_fee(1_500_000_000)
        .max_fee(3_000_000_000)
        .build();
    let tx0_replacement3_hash = *tx0_replacement3.hash();
    let valid_tx3 = wrap_valid_tx(tx0_replacement3, TransactionOrigin::Local);
    let result = pool.add_transaction(Arc::new(valid_tx3), 0, TempoHardfork::T1, BASE_FEE);
    assert!(result.is_ok(), "Should accept higher price bump");
    let (pending_count, queued_count) = pool.pending_and_queued_txn_count();
    assert_eq!(pending_count + queued_count, 1);
    assert!(
        !pool.contains(&tx0_replacement2_hash),
        "Previous tx should be removed"
    );
    assert!(
        pool.contains(&tx0_replacement3_hash),
        "Highest priority tx should win"
    );

    // Verify independent set has the final replacement
    let tx0_id = AA2dTransactionId::new(seq_id, 0);
    assert!(pool.independent_transactions.contains_key(&tx0_id.seq_id));

    assert!(pool.invariants_hold());
}

#[test]
fn long_gap_chain() {
    check_long_gap_chain(U256::zero());
    check_long_gap_chain(U256 { hi: 0x8f6d05584ef8aa38, lo: 0xae97ba94d0eda82f });
}

fn check_long_gap_chain(nonce_key: U256) {
    let mut pool = AA2dPool::default();
    let sender = address(0x1c);
    let seq_id = AASequenceId {
        address: sender,
        nonce_key,
    };

    // Insert transactions with large gaps: [0, 5, 10, 15]
    let tx0 = TxBuilder::aa(sender).nonce_key(nonce_key).build();
    let tx5 = TxBuilder::aa(sender).nonce_key(nonce_key).nonce(5).build();
    let tx10 = TxBuilder::aa(sender).nonce_key(nonce_key).nonce(10).build();
    let tx15 = TxBuilder::aa(sender).nonce_key(nonce_key).nonce(15).build();

    add(&mut pool, tx0, 0).unwrap();
    add(&mut pool, tx5, 0).unwrap();
    add(&mut pool, tx10, 0).unwrap();
    add(&mut pool, tx15, 0).unwrap();

    let (pending_count, queued_count) = pool.pending_and_queued_txn_count();
    assert_eq!(pending_count + queued_count, 4);

    // Only tx0 should be pending, rest should be queued
    let tx0_id = AA2dTransactionId::new(seq_id, 0);
    assert!(pool.by_id.get(&tx0_id).unwrap().is_pending());
    assert!(
        !pool
            .by_id
            .get(&AA2dTransactionId::new(seq_id, 5))
            .unwrap()
            .is_pending()
    );
    assert!(
        !pool
            .by_id
            .get(&AA2dTransactionId::new(seq_id, 10))
            .unwrap()
            .is_pending()
    );
    assert!(
        !pool
            .by_id
            .get(&AA2dTransactionId::new(seq_id, 15))
            .unwrap()
            .is_pending()
    );
    assert_eq!(pool.independent_transactions.len(), 1);

    // Fill gap [1,2,3,4]
    for nonce in 1..=4 {
        let tx = TxBuilder::aa(sender)
            .nonce_key(nonce_key)
            .nonce(nonce)
            .build();
        add(&mut pool, tx, 0).unwrap();
    }

    let (pending_count, queued_count) = pool.pending_and_queued_txn_count();
    assert_eq!(pending_count + queued_count, 8);

    // Now [0,1,2,3,4,5] should be pending
    for nonce in 0..=5 {
        let id = AA2dTransactionId::new(seq_id, nonce);
        assert!(
            pool.by_id.get(&id).unwrap().is_pending(),
            "Nonce {nonce} should be pending"
        );
    }
    // [10, 15] should still be queued
    assert!(
        !pool
            .by_id
            .get(&AA2dTransactionId::new(seq_id, 10))
            .unwrap()
            .is_pending()
    );
    assert!(
        !pool
            .by_id
            .get(&AA2dTransactionId::new(seq_id, 15))
            .unwrap()
            .is_pending()
    );

    // Fill gap [6,7,8,9]
    for nonce in 6..=9 {
        let tx = TxBuilder::aa(sender)
            .nonce_key(nonce_key)
            .nonce(nonce)
            .build();
        add(&mut pool, tx, 0).unwrap();
    }

    let (pending_count, queued_count) = pool.pending_and_queued_txn_count();
    assert_eq!(pending_count + queued_count, 12);

    // Now [0..=10] should be pending
    for nonce in 0..=10 {
        let id = AA2dTransactionId::new(seq_id, nonce);
        assert!(
            pool.by_id.get(&id).unwrap().is_pending(),
            "Nonce {nonce} should be pending"
        );
    }
    // Only [15] should be queued
    assert!(
        !pool
            .by_id
            .get(&AA2dTransactionId::new(seq_id, 15))
            .unwrap()
            .is_pending()
    );

    // Fill final gap [11,12,13,14]
    for nonce in 11..=14 {
        let tx = TxBuilder::aa(sender)
            .nonce_key(nonce_key)
            .nonce(nonce)
            .build();
        add(&mut pool, tx, 0).unwrap();
    }

    let (pending_count, queued_count) = pool.pending_and_queued_txn_count();
    assert_eq!(pending_count + queued_count, 16);

    // All should be pending now
    for nonce in 0..=15 {
        let id = AA2dTransactionId::new(seq_id, nonce);
        assert!(
            pool.by_id.get(&id).unwrap().is_pending(),
            "Nonce {nonce} should be pending"
        );
    }

    assert!(pool.invariants_hold());
}

#[test]
fn remove_from_middle_of_chain() {
    check_remove_from_middle_of_chain(U256::zero());
    check_remove_from_middle_of_chain(U256 { hi: 0x1a61dbe22e44158b, lo: 0x923a736994e3bf91 });
}

fn check_remove_from_middle_of_chain(nonce_key: U256) {
    let mut pool = AA2dPool::default();
    let sender = address(0x1d);
    let seq_id = AASequenceId {
        address: sender,
        nonce_key,
    };

    // Insert continuous sequence [0,1,2,3,4]
    for nonce in 0..=4 {
        let tx = TxBuilder::aa(sender)
            .nonce_key(nonce_key)
            .nonce(nonce)
            .build();
        add(&mut pool, tx, 0).unwrap();
    }

    let (pending_count, queued_count) = pool.pending_and_queued_txn_count();
    assert_eq!(pending_count + queued_count, 5);

    // All should be pending
    for nonce in 0..=4 {
        assert!(
            pool.by_id
                .get(&AA2dTransactionId::new(seq_id, nonce))
                .unwrap()
                .is_pending()
        );
    }

    // Remove nonce 2 from the middle
    let tx2_id = AA2dTransactionId::new(seq_id, 2);
    let tx2_hash = *pool.by_id.get(&tx2_id).unwrap().inner.transaction.hash();
    let removed = pool.remove_transactions(&[tx2_hash]);
    assert_eq!(removed.len(), 1, "Should remove transaction");

    let (pending_count, queued_count) = pool.pending_and_queued_txn_count();
    assert_eq!(pending_count + queued_count, 4);

    // Transaction 2 should be gone
    assert!(!pool.by_id.contains_key(&tx2_id));

    // Note: Current implementation doesn't automatically re-scan after removal
    // So we verify that the removal succeeded but don't expect automatic gap detection
    // Transactions [0,1,3,4] remain in their current state

    assert!(pool.invariants_hold());
}

#[test]
fn independent_set_after_multiple_promotions() {
    check_independent_set_after_multiple_promotions(U256::zero());
    check_independent_set_after_multiple_promotions(U256 { hi: 0x301850c5a38fd547, lo: 0x18f135d25f557203 });
}

fn check_independent_set_after_multiple_promotions(nonce_key: U256) {
    let mut pool = AA2dPool::default();
    let sender = address(0x1e);
    let seq_id = AASequenceId {
        address: sender,
        nonce_key,
    };

    // Start with gaps: insert [0, 2, 4]
    let tx0 = TxBuilder::aa(sender).nonce_key(nonce_key).build();
    let tx2 = TxBuilder::aa(sender).nonce_key(nonce_key).nonce(2).build();
    let tx4 = TxBuilder::aa(sender).nonce_key(nonce_key).nonce(4).build();

    add(&mut pool, tx0, 0).unwrap();
    add(&mut pool, tx2, 0).unwrap();
    add(&mut pool, tx4, 0).unwrap();

    // Only tx0 should be in independent set
    assert_eq!(pool.independent_transactions.len(), 1);
    assert!(pool.independent_transactions.contains_key(&seq_id));

    // Verify initial state: tx0 pending, tx2 and tx4 queued
    let (pending_count, queued_count) = pool.pending_and_queued_txn_count();
    assert_eq!(pending_count, 1);
    assert_eq!(queued_count, 2);

    // Fill first gap: insert [1]
    let tx1 = TxBuilder::aa(sender).nonce_key(nonce_key).nonce(1).build();
    add(&mut pool, tx1, 0).unwrap();

    // Now [0, 1, 2] should be pending, tx4 still queued
    let (pending_count, queued_count) = pool.pending_and_queued_txn_count();
    assert_eq!(pending_count, 3);
    assert_eq!(queued_count, 1);

    // Still only tx0 in independent set
    assert_eq!(pool.independent_transactions.len(), 1);
    assert!(pool.independent_transactions.contains_key(&seq_id));

    // Fill second gap: insert [3]
    let tx3 = TxBuilder::aa(sender).nonce_key(nonce_key).nonce(3).build();
    add(&mut pool, tx3, 0).unwrap();

    // Now all [0,1,2,3,4] should be pending
    let (pending_count, queued_count) = pool.pending_and_queued_txn_count();
    assert_eq!(pending_count, 5);
    assert_eq!(queued_count, 0);

    // Simulate mining [0,1]
    let mut on_chain_ids = SortedMap::new();
    on_chain_ids.insert(seq_id, 2u64);
    let (promoted, mined) = pool.on_nonce_changes(&on_chain_ids);

    // Should have mined [0,1], no promotions (already pending)
    assert_eq!(mined.len(), 2);
    assert_eq!(promoted.len(), 0);

    // Now tx2 should be in independent set
    assert_eq!(pool.independent_transactions.len(), 1);
    assert!(pool.independent_transactions.contains_key(&seq_id));

    // Verify [2,3,4] remain in pool
    let (pending_count, queued_count) = pool.pending_and_queued_txn_count();
    assert_eq!(pending_count + queued_count, 3);

    assert!(pool.invariants_hold());
}

#[test]
fn stress_test_many_senders() {
    let mut pool = AA2dPool::default();
    let num_senders: usize = 100;
    let txs_per_sender: u64 = 5;

    // Create 100 senders, each with 5 transactions
    let mut senders = Vec::new();
    for i in 0..num_senders {
        let sender = address(i as u128);
        let nonce_key = word(i as u64);
        senders.push((sender, nonce_key));

        // Insert transactions [0,1,2,3,4] for each sender
        for nonce in 0..txs_per_sender {
            let tx = TxBuilder::aa(sender)
                .nonce_key(nonce_key)
                .nonce(nonce)
                .build();
            add(&mut pool, tx, 0).unwrap();
        }
    }

    // Verify pool size
    let (pending_count, queued_count) = pool.pending_and_queued_txn_count();
    assert_eq!(
        pending_count + queued_count,
        num_senders * txs_per_sender as usize
    );

    // Each sender should have all transactions pending
    for (sender, nonce_key) in &senders {
        let seq_id = AASequenceId {
            address: *sender,
            nonce_key: *nonce_key,
        };
        for nonce in 0..txs_per_sender {
            let id = AA2dTransactionId::new(seq_id, nonce);
            assert!(pool.by_id.get(&id).unwrap().is_pending());
        }
    }

    // Independent set should have exactly num_senders transactions (one per sender at nonce 0)
    assert_eq!(pool.independent_transactions.len(), num_senders);
    for (sender, nonce_key) in &senders {
        let seq_id = AASequenceId {
            address: *sender,
            nonce_key: *nonce_key,
        };
        let tx0_id = AA2dTransactionId::new(seq_id, 0);
        assert!(
            pool.independent_transactions.contains_key(&tx0_id.seq_id),
            "Sender {sender:?} should have tx0 in independent set"
        );
    }

    // Simulate mining first transaction for each sender
    let mut on_chain_ids = SortedMap::new();
    for (sender, nonce_key) in &senders {
        let seq_id = AASequenceId {
            address: *sender,
            nonce_key: *nonce_key,
        };
        on_chain_ids.insert(seq_id, 1u64);
    }

    let (promoted, mined) = pool.on_nonce_changes(&on_chain_ids);

    // Should have mined num_senders transactions
    assert_eq!(mined.len(), num_senders);
    // No promotions - transactions [1,2,3,4] were already pending
    assert_eq!(promoted.len(), 0);

    // Pool size should be reduced
    let (pending_count, queued_count) = pool.pending_and_queued_txn_count();
    assert_eq!(
        pending_count + queued_count,
        num_senders * (txs_per_sender - 1) as usize
    );

    // Independent set should still have num_senders transactions (now at nonce 1)
    assert_eq!(pool.independent_transactions.len(), num_senders);
    for (sender, nonce_key) in &senders {
        let seq_id = AASequenceId {
            address: *sender,
            nonce_key: *nonce_key,
        };
        let tx1_id = AA2dTransactionId::new(seq_id, 1);
        assert!(
            pool.independent_transactions.contains_key(&tx1_id.seq_id),
            "Sender {sender:?} should have tx1 in independent set"
        );
    }

    assert!(pool.invariants_hold());
}

#[test]
fn on_chain_nonce_update_to_queued_tx_with_gaps() {
    check_on_chain_nonce_update_to_queued_tx_with_gaps(U256::zero());
    check_on_chain_nonce_update_to_queued_tx_with_gaps(U256 { hi: 0xb64ce4228c38fb29, lo: 0x907a70c31012f037 });
}

fn check_on_chain_nonce_update_to_queued_tx_with_gaps(nonce_key: U256) {
    let mut pool = AA2dPool::default();
    let sender = address(0x1f);
    let seq_id = AASequenceId {
        address: sender,
        nonce_key,
    };

    // Start with gaps: insert [0, 3, 5]
    // This creates: tx0 (pending), tx3 (queued), tx5 (queued)
    let tx0 = TxBuilder::aa(sender).nonce_key(nonce_key).build();
    let tx3 = TxBuilder::aa(sender).nonce_key(nonce_key).nonce(3).build();
    let tx5 = TxBuilder::aa(sender).nonce_key(nonce_key).nonce(5).build();

    add(&mut pool, tx0, 0).unwrap();
    add(&mut pool, tx3, 0).unwrap();
    add(&mut pool, tx5, 0).unwrap();

    // Only tx0 should be in independent set
    assert_eq!(pool.independent_transactions.len(), 1);
    assert!(pool.independent_transactions.contains_key(&seq_id));

    // Verify initial state: tx0 pending, tx3 and tx5 queued
    let (pending_count, queued_count) = pool.pending_and_queued_txn_count();
    assert_eq!(pending_count, 1, "Only tx0 should be pending");
    assert_eq!(queued_count, 2, "tx3 and tx5 should be queued");

    // Fill gaps to get [0, 1, 2, 3, 5]
    let tx1 = TxBuilder::aa(sender).nonce_key(nonce_key).nonce(1).build();
    add(&mut pool, tx1, 0).unwrap();

    let tx2 = TxBuilder::aa(sender).nonce_key(nonce_key).nonce(2).build();
    add(&mut pool, tx2, 0).unwrap();

    // Now [0,1,2,3] should be pending, tx5 still queued
    let (pending_count, queued_count) = pool.pending_and_queued_txn_count();
    assert_eq!(pending_count, 4, "Transactions [0,1,2,3] should be pending");
    assert_eq!(queued_count, 1, "tx5 should still be queued");

    // Still only tx0 in independent set (at on-chain nonce 0)
    assert_eq!(pool.independent_transactions.len(), 1);
    assert!(pool.independent_transactions.contains_key(&seq_id));

    let mut on_chain_ids = SortedMap::new();
    on_chain_ids.insert(seq_id, 3u64);
    let (_promoted, mined) = pool.on_nonce_changes(&on_chain_ids);

    // Should have mined [0,1,2]
    assert_eq!(mined.len(), 3, "Should mine transactions [0,1,2]");

    // tx3 was already pending, so no promotions expected
    // After mining, tx3 should be in independent set
    assert_eq!(
        pool.independent_transactions.len(),
        1,
        "Should have one independent transaction"
    );
    let key = AA2dTransactionId::new(seq_id, 3);
    assert!(
        pool.independent_transactions.contains_key(&key.seq_id),
        "tx3 should be in independent set"
    );

    // Verify remaining pool state
    let (_pending_count, _queued_count) = pool.pending_and_queued_txn_count();
    // Should have tx3 (pending at on-chain nonce) and tx5 (queued due to gap at 4)

    assert!(pool.invariants_hold());

    // Now insert tx4 to fill the gap between tx3 and tx5
    let tx4 = TxBuilder::aa(sender).nonce_key(nonce_key).nonce(4).build();
    add(&mut pool, tx4, 3).unwrap();

    // After inserting tx4, we should have [3, 4, 5] all in the pool
    let (_pending_count_after, _queued_count_after) = pool.pending_and_queued_txn_count();
    assert!(pool.invariants_hold());
}

#[test]
fn append_pooled_transaction_elements_respects_limit() {
    let mut pool = AA2dPool::default();
    let sender = address(0x20);
    let nonce_key = word(1);

    // Add 3 transactions with consecutive nonces
    let tx0 = TxBuilder::aa(sender).nonce_key(nonce_key).build();
    let tx0_hash = *tx0.hash();
    let tx0_len = tx0.encoded_length();
    add(&mut pool, tx0, 0).unwrap();

    let tx1 = TxBuilder::aa(sender).nonce_key(nonce_key).nonce(1).build();
    let tx1_hash = *tx1.hash();
    let tx1_len = tx1.encoded_length();
    add(&mut pool, tx1, 0).unwrap();

    let tx2 = TxBuilder::aa(sender).nonce_key(nonce_key).nonce(2).build();
    let tx2_hash = *tx2.hash();
    let tx2_len = tx2.encoded_length();
    add(&mut pool, tx2, 0).unwrap();

    // Test with no limit - should return all 3 transactions
    let mut accumulated = 0;
    let mut elements = Vec::new();
    pool.append_pooled_transaction_elements(
        &[tx0_hash, tx1_hash, tx2_hash],
        GetPooledTransactionLimit::Unlimited,
        &mut accumulated,
        &mut elements,
    );
    assert_eq!(elements.len(), 3, "Should return all 3 transactions");
    assert_eq!(
        accumulated,
        tx0_len + tx1_len + tx2_len,
        "Should accumulate all sizes"
    );

    // Test with a soft limit - stops after exceeding (not at) the limit
    // A limit of tx0_len - 1 means we stop after tx0 is added (since tx0_len > limit)
    let mut accumulated = 0;
    let mut elements = Vec::new();
    pool.append_pooled_transaction_elements(
        &[tx0_hash, tx1_hash, tx2_hash],
        GetPooledTransactionLimit::ResponseSizeSoftLimit(tx0_len - 1),
        &mut accumulated,
        &mut elements,
    );
    assert_eq!(
        elements.len(),
        1,
        "Should stop after first tx exceeds limit"
    );
    assert_eq!(accumulated, tx0_len, "Should accumulate first tx size");

    // Test with limit that allows exactly 2 transactions before exceeding
    // A limit of tx0_len + tx1_len - 1 means we stop after tx1 is added
    let mut accumulated = 0;
    let mut elements = Vec::new();
    pool.append_pooled_transaction_elements(
        &[tx0_hash, tx1_hash, tx2_hash],
        GetPooledTransactionLimit::ResponseSizeSoftLimit(tx0_len + tx1_len - 1),
        &mut accumulated,
        &mut elements,
    );
    assert_eq!(
        elements.len(),
        2,
        "Should stop after second tx exceeds limit"
    );
    assert_eq!(
        accumulated,
        tx0_len + tx1_len,
        "Should accumulate first two tx sizes"
    );

    // Test with pre-accumulated size that causes immediate stop after first tx
    let mut accumulated = tx0_len;
    let mut elements = Vec::new();
    pool.append_pooled_transaction_elements(
        &[tx1_hash, tx2_hash],
        GetPooledTransactionLimit::ResponseSizeSoftLimit(tx0_len + tx1_len - 1),
        &mut accumulated,
        &mut elements,
    );
    assert_eq!(
        elements.len(),
        1,
        "Should return 1 transaction when pre-accumulated size causes early stop"
    );
    assert_eq!(
        accumulated,
        tx0_len + tx1_len,
        "Should add to pre-accumulated size"
    );
}
// ============================================
// Helper function tests
// ============================================

#[test]
fn test_2d_pool_helpers() {
    let mut pool = AA2dPool::default();
    let sender = address(0x21);
    let tx = TxBuilder::aa(sender).build();
    let tx_hash = *tx.hash();

    assert!(!pool.contains(&tx_hash));
    assert!(pool.get(&tx_hash).is_none());

    add(&mut pool, tx, 0).unwrap();

    assert!(pool.contains(&tx_hash));
    let retrieved = pool.get(&tx_hash);
    assert!(retrieved.is_some());
    assert_eq!(retrieved.unwrap().hash(), &tx_hash);
}

#[test]
fn test_pool_get_all() {
    let mut pool = AA2dPool::default();
    let sender = address(0x22);

    let tx0 = TxBuilder::aa(sender).build();
    let tx1 = TxBuilder::aa(sender).nonce(1).build();
    let tx0_hash = *tx0.hash();
    let tx1_hash = *tx1.hash();
    let fake_hash = B256 { hi: 0x5c90a9587403e430, lo: 103 };

    add(&mut pool, tx0, 0).unwrap();
    add(&mut pool, tx1, 0).unwrap();

    let hashes = [tx0_hash, tx1_hash, fake_hash];
    let results = pool.get_all(&hashes);

    assert_eq!(results.len(), 2); // Only the two real transactions
}

#[test]
fn test_pool_senders_iter() {
    let mut pool = AA2dPool::default();
    let sender1 = address(0x23);
    let sender2 = address(0x24);

    let tx1 = TxBuilder::aa(sender1).build();
    let tx2 = TxBuilder::aa(sender2).nonce_key(word(1)).build();

    add(&mut pool, tx1, 0).unwrap();
    add(&mut pool, tx2, 0).unwrap();

    let senders: Vec<_> = pool.senders();
    assert_eq!(senders.len(), 2);
    assert!(senders.contains(&sender1));
    assert!(senders.contains(&sender2));
}

#[test]
fn test_pool_pending_and_queued_transactions() {
    let mut pool = AA2dPool::default();
    let sender = address(0x25);

    // Pending: tx0, tx1, tx2 (consecutive nonces starting from on-chain nonce 0)
    let tx0 = TxBuilder::aa(sender).build();
    let tx1 = TxBuilder::aa(sender).nonce(1).build();
    let tx2 = TxBuilder::aa(sender).nonce(2).build();
    let tx0_hash = *tx0.hash();
    let tx1_hash = *tx1.hash();
    let tx2_hash = *tx2.hash();

    // Queued: tx5, tx6, tx7 (gap after tx2)
    let tx5 = TxBuilder::aa(sender).nonce(5).build();
    let tx6 = TxBuilder::aa(sender).nonce(6).build();
    let tx7 = TxBuilder::aa(sender).nonce(7).build();
    let tx5_hash = *tx5.hash();
    let tx6_hash = *tx6.hash();
    let tx7_hash = *tx7.hash();

    for tx in [tx0, tx1, tx2, tx5, tx6, tx7] {
        add(&mut pool, tx, 0).unwrap();
    }

    let pending: Vec<_> = pool.pending_transactions();
    assert_eq!(pending.len(), 3);
    let pending_hashes: HashSet<_> = pending.iter().map(|tx| *tx.hash()).collect();
    assert!(pending_hashes.contains(&tx0_hash));
    assert!(pending_hashes.contains(&tx1_hash));
    assert!(pending_hashes.contains(&tx2_hash));

    let queued: Vec<_> = pool.queued_transactions();
    assert_eq!(queued.len(), 3);
    let queued_hashes: HashSet<_> = queued.iter().map(|tx| *tx.hash()).collect();
    assert!(queued_hashes.contains(&tx5_hash));
    assert!(queued_hashes.contains(&tx6_hash));
    assert!(queued_hashes.contains(&tx7_hash));
}

#[test]
fn test_pool_get_transactions_by_sender_iter() {
    let mut pool = AA2dPool::default();
    let sender1 = address(0x26);
    let sender2 = address(0x27);

    let tx1 = TxBuilder::aa(sender1).nonce_key(U256::zero()).build();
    let tx2 = TxBuilder::aa(sender2).nonce_key(word(1)).build();

    add(&mut pool, tx1, 0).unwrap();
    add(&mut pool, tx2, 0).unwrap();

    let sender1_txs: Vec<_> = pool.get_transactions_by_sender(sender1);
    assert_eq!(sender1_txs.len(), 1);
    assert_eq!(sender1_txs[0].sender(), sender1);

    let sender2_txs: Vec<_> = pool.get_transactions_by_sender(sender2);
    assert_eq!(sender2_txs.len(), 1);
    assert_eq!(sender2_txs[0].sender(), sender2);
}

#[test]
fn test_pool_get_transactions_by_origin_iter() {
    let mut pool = AA2dPool::default();
    let sender = address(0x28);

    let tx0 = TxBuilder::aa(sender).nonce_key(U256::zero()).build();
    let tx1 = TxBuilder::aa(sender).nonce_key(U256::zero()).nonce(1).build();

    add(&mut pool, tx0, 0).unwrap();
    pool.add_transaction(
        Arc::new(wrap_valid_tx(tx1, TransactionOrigin::External)),
        0,
        TempoHardfork::T1,
        BASE_FEE,
    )
    .unwrap();

    let local_txs: Vec<_> = pool
        .get_transactions_by_origin(TransactionOrigin::Local);
    assert_eq!(local_txs.len(), 1);

    let external_txs: Vec<_> = pool
        .get_transactions_by_origin(TransactionOrigin::External);
    assert_eq!(external_txs.len(), 1);
}

#[test]
fn test_pool_get_pending_transactions_by_origin_iter() {
    let mut pool = AA2dPool::default();
    let sender = address(0x29);

    let tx0 = TxBuilder::aa(sender).nonce_key(U256::zero()).build();
    let tx2 = TxBuilder::aa(sender).nonce_key(U256::zero()).nonce(2).build(); // Queued due to gap

    add(&mut pool, tx0, 0).unwrap();
    add(&mut pool, tx2, 0).unwrap();

    let pending_local: Vec<_> = pool
        .get_pending_transactions_by_origin(TransactionOrigin::Local);
    assert_eq!(pending_local.len(), 1); // Only tx0 is pending
}

#[test]
fn test_pool_all_transaction_hashes_iter() {
    let mut pool = AA2dPool::default();
    let sender = address(0x2a);

    let tx0 = TxBuilder::aa(sender).nonce_key(U256::zero()).build();
    let tx1 = TxBuilder::aa(sender).nonce_key(U256::zero()).nonce(1).build();
    let tx0_hash = *tx0.hash();
    let tx1_hash = *tx1.hash();

    add(&mut pool, tx0, 0).unwrap();
    add(&mut pool, tx1, 0).unwrap();

    let hashes: Vec<_> = pool.all_transaction_hashes();
    assert_eq!(hashes.len(), 2);
    assert!(hashes.contains(&tx0_hash));
    assert!(hashes.contains(&tx1_hash));
}

#[test]
fn test_pool_pooled_transactions_hashes_iter() {
    let mut pool = AA2dPool::default();
    let sender = address(0x2b);

    let tx0 = TxBuilder::aa(sender).nonce_key(U256::zero()).build();
    let tx1 = TxBuilder::aa(sender).nonce_key(U256::zero()).nonce(1).build();

    add(&mut pool, tx0, 0).unwrap();
    add(&mut pool, tx1, 0).unwrap();

    let hashes: Vec<_> = pool.pooled_transactions_hashes();
    assert_eq!(hashes.len(), 2);
}

#[test]
fn test_pool_pooled_transactions_iter() {
    let mut pool = AA2dPool::default();
    let sender = address(0x2c);

    let tx0 = TxBuilder::aa(sender).nonce_key(U256::zero()).build();
    let tx1 = TxBuilder::aa(sender).nonce_key(U256::zero()).nonce(1).build();

    add(&mut pool, tx0, 0).unwrap();
    add(&mut pool, tx1, 0).unwrap();

    let txs: Vec<_> = pool.pooled_transactions();
    assert_eq!(txs.len(), 2);
}

// ============================================
// BestAA2dTransactions tests
// ============================================

#[test]
fn test_best_transactions_iterator() {
    let mut pool = AA2dPool::default();
    let sender = address(0x2d);

    let tx0 = TxBuilder::aa(sender).nonce_key(U256::zero()).build();
    let tx1 = TxBuilder::aa(sender).nonce_key(U256::zero()).nonce(1).build();

    add(&mut pool, tx0, 0).unwrap();
    add(&mut pool, tx1, 0).unwrap();

    let mut best = pool.best_transactions();

    // Should iterate through pending transactions
    let first = best.next();
    assert!(first.is_some());

    let second = best.next();
    assert!(second.is_some());

    let third = best.next();
    assert!(third.is_none());
}

#[test]
fn test_best_transactions_mark_invalid() {
    let mut pool = AA2dPool::default();
    let sender = address(0x2e);

    let tx0 = TxBuilder::aa(sender).nonce_key(U256::zero()).build();
    let tx1 = TxBuilder::aa(sender).nonce_key(U256::zero()).nonce(1).build();

    add(&mut pool, tx0, 0).unwrap();
    add(&mut pool, tx1, 0).unwrap();

    let mut best = pool.best_transactions();

    let first = best.next().unwrap();

    // Mark it invalid
    let error = InvalidPoolTransactionError::Consensus(
        InvalidTransactionError::TxTypeNotSupported,
    );
    best.mark_invalid(&first, error);

    // The sequence should be in the invalid set, so next tx from same sender should be skipped
    // But since we already consumed tx0, we'd get tx1 next - but the sequence is now invalid
}

#[test]
fn test_best_transactions_expiring_nonce_independent() {
    // Expiring nonce transactions (nonce_key == U256::max_value()) are always independent
    // and should not trigger unlock logic for dependent transactions
    let mut pool = AA2dPool::default();
    let sender = address(0x2f);

    // Add expiring nonce transaction
    let tx = TxBuilder::aa(sender).nonce_key(U256::max_value()).nonce(0).build();
    add(&mut pool, tx, 0).unwrap();

    let mut best = pool.best_transactions();

    // Should return the transaction
    let first = best.next();
    assert!(first.is_some());

    // No more transactions
    assert!(best.next().is_none());
}

// ============================================
// Remove transactions tests
// ============================================

#[test]
fn test_remove_transactions_by_sender() {
    let mut pool = AA2dPool::default();
    let sender1 = address(0x30);
    let sender2 = address(0x31);

    let tx1 = TxBuilder::aa(sender1).nonce_key(U256::zero()).build();
    let tx2 = TxBuilder::aa(sender2).nonce_key(word(1)).build();

    add(&mut pool, tx1, 0).unwrap();
    add(&mut pool, tx2, 0).unwrap();

    let removed = pool.remove_transactions_by_sender(sender1);
    assert_eq!(removed.len(), 1);
    assert_eq!(removed[0].sender(), sender1);

    // sender1's tx should be gone, sender2's should remain
    let (pending, queued) = pool.pending_and_queued_txn_count();
    assert_eq!(pending + queued, 1);

    assert!(pool.invariants_hold());
}

#[test]
fn test_remove_transactions_and_descendants() {
    let mut pool = AA2dPool::default();
    let sender = address(0x32);

    let tx0 = TxBuilder::aa(sender).nonce_key(U256::zero()).build();
    let tx1 = TxBuilder::aa(sender).nonce_key(U256::zero()).nonce(1).build();
    let tx2 = TxBuilder::aa(sender).nonce_key(U256::zero()).nonce(2).build();
    let tx0_hash = *tx0.hash();

    add(&mut pool, tx0, 0).unwrap();
    add(&mut pool, tx1, 0).unwrap();
    add(&mut pool, tx2, 0).unwrap();

    // Remove tx0 and its descendants (tx1, tx2)
    let removed = pool.remove_transactions_and_descendants(&[tx0_hash]);
    assert_eq!(removed.len(), 3);

    let (pending, queued) = pool.pending_and_queued_txn_count();
    assert_eq!(pending + queued, 0);

    assert!(pool.invariants_hold());
}

// ============================================
// AASequenceId and AA2dTransactionId tests
// ============================================

#[test]
fn test_aa_sequence_id_equality() {
    let addr = address(0x33);
    let nonce_key = word(42);

    let id1 = AASequenceId::new(addr, nonce_key);
    let id2 = AASequenceId::new(addr, nonce_key);
    let id3 = AASequenceId::new(address(0x34), nonce_key);

    assert_eq!(id1, id2);
    assert_ne!(id1, id3);
}

#[test]
fn test_aa2d_transaction_id_unlocks() {
    let addr = address(0x35);
    let seq_id = AASequenceId::new(addr, U256::zero());
    let tx_id = AA2dTransactionId::new(seq_id, 5);

    let next_id = tx_id.unlocks();
    assert_eq!(next_id.seq_id, seq_id);
    assert_eq!(next_id.nonce, 6);
}

#[test]
fn test_aa2d_transaction_id_ordering() {
    let addr = address(0x36);
    let seq_id = AASequenceId::new(addr, U256::zero());

    let id1 = AA2dTransactionId::new(seq_id, 1);
    let id2 = AA2dTransactionId::new(seq_id, 2);

    assert!(id1 < id2);
}

// ============================================
// Edge case tests
// ============================================

#[test]
fn test_nonce_overflow_at_u64_max() {
    let mut pool = AA2dPool::default();
    let sender = address(0x37);
    let nonce_key = U256::zero();

    let tx = TxBuilder::aa(sender)
        .nonce_key(nonce_key)
        .nonce(u64::MAX)
        .build();
    let valid_tx = wrap_valid_tx(tx, TransactionOrigin::Local);

    let result = pool.add_transaction(Arc::new(valid_tx), u64::MAX, TempoHardfork::T1, BASE_FEE);
    assert!(result.is_ok());

    let (pending, queued) = pool.pending_and_queued_txn_count();
    assert_eq!(pending, 1);
    assert_eq!(queued, 0);

    let seq_id = AASequenceId::new(sender, nonce_key);
    let tx_id = AA2dTransactionId::new(seq_id, u64::MAX);
    let unlocked = tx_id.unlocks();
    assert_eq!(
        unlocked.nonce,
        u64::MAX,
        "saturating_add should not overflow"
    );

    assert!(pool.invariants_hold());
}

#[test]
fn test_nonce_near_max_with_gap() {
    let mut pool = AA2dPool::default();
    let sender = address(0x38);
    let nonce_key = U256::zero();

    let tx_max = TxBuilder::aa(sender)
        .nonce_key(nonce_key)
        .nonce(u64::MAX)
        .build();
    let tx_max_minus_1 = TxBuilder::aa(sender)
        .nonce_key(nonce_key)
        .nonce(u64::MAX - 1)
        .build();

    add(&mut pool, tx_max, u64::MAX - 1).unwrap();

    let (pending, queued) = pool.pending_and_queued_txn_count();
    assert_eq!(pending, 0, "tx at u64::MAX should be queued (gap exists)");
    assert_eq!(queued, 1);

    add(&mut pool, tx_max_minus_1, u64::MAX - 1).unwrap();

    let (pending, queued) = pool.pending_and_queued_txn_count();
    assert_eq!(pending, 2, "both should now be pending");
    assert_eq!(queued, 0);

    assert!(pool.invariants_hold());
}

#[test]
fn test_empty_pool_operations() {
    let pool = AA2dPool::default();

    assert_eq!(pool.pending_and_queued_txn_count(), (0, 0));
    assert!(pool.get(&B256 { hi: 0x3f98e2774cbd87ad, lo: 104 }).is_none());
    assert!(!pool.contains(&B256 { hi: 0x2e05319acb5c7427, lo: 105 }));
    assert_eq!(pool.senders().len(), 0);
    assert_eq!(pool.pending_transactions().len(), 0);
    assert_eq!(pool.queued_transactions().len(), 0);
    assert_eq!(pool.all_transaction_hashes().len(), 0);
    assert_eq!(pool.pooled_transactions_hashes().len(), 0);
    assert_eq!(pool.pooled_transactions().len(), 0);

    let mut best = pool.best_transactions();
    assert!(best.next().is_none());
}

#[test]
fn test_empty_pool_remove_operations() {
    let mut pool = AA2dPool::default();
    let random_hash = B256 { hi: 0xc7a2ea20b2f14c94, lo: 106 };
    let random_sender = address(0x39);

    let removed = pool.remove_transactions(&[random_hash]);
    assert!(removed.is_empty());

    let removed = pool.remove_transactions_by_sender(random_sender);
    assert!(removed.is_empty());

    let removed = pool.remove_transactions_and_descendants(&[random_hash]);
    assert!(removed.is_empty());

    assert!(pool.invariants_hold());
}

#[test]
fn test_empty_pool_on_nonce_changes() {
    let mut pool = AA2dPool::default();

    let mut changes = SortedMap::new();
    changes.insert(AASequenceId::new(address(0x3a), U256::zero()), 5u64);

    let (promoted, mined) = pool.on_nonce_changes(&changes);
    assert!(promoted.is_empty());
    assert!(mined.is_empty());

    assert!(pool.invariants_hold());
}

// ============================================
// Error path tests
// ============================================

#[test]
fn test_add_already_imported_transaction() {
    let mut pool = AA2dPool::default();
    let sender = address(0x3b);

    let tx = TxBuilder::aa(sender).nonce_key(U256::zero()).build();
    let tx_hash = *tx.hash();
    let valid_tx = Arc::new(wrap_valid_tx(tx, TransactionOrigin::Local));

    pool.add_transaction(valid_tx.clone(), 0, TempoHardfork::T1, BASE_FEE)
        .unwrap();

    let result = pool.add_transaction(valid_tx, 0, TempoHardfork::T1, BASE_FEE);
    assert!(result.is_err());
    let err = result.unwrap_err();
    assert_eq!(err.hash, tx_hash);
    assert!(
        matches!(err.kind, PoolErrorKind::AlreadyImported),
        "Expected AlreadyImported, got {:?}",
        err.kind
    );

    assert!(pool.invariants_hold());
}

#[test]
fn test_add_outdated_nonce_transaction() {
    let mut pool = AA2dPool::default();
    let sender = address(0x3c);

    let tx = TxBuilder::aa(sender).nonce_key(U256::zero()).nonce(5).build();
    let tx_hash = *tx.hash();
    let valid_tx = Arc::new(wrap_valid_tx(tx, TransactionOrigin::Local));

    let result = pool.add_transaction(valid_tx, 10, TempoHardfork::T1, BASE_FEE);
    assert!(result.is_err());
    let err = result.unwrap_err();
    assert_eq!(err.hash, tx_hash);
    assert!(
        matches!(
            err.kind,
            PoolErrorKind::InvalidTransaction(InvalidTransactionError::NonceNotConsistent { tx: 5, state: 10 })
        ),
        "Expected NonceNotConsistent, got {:?}",
        err.kind
    );

    let (pending, queued) = pool.pending_and_queued_txn_count();
    assert_eq!(pending + queued, 0);
}

#[test]
fn test_replacement_underpriced() {
    let mut pool = AA2dPool::default();
    let sender = address(0x3d);

    let tx1 = TxBuilder::aa(sender)
        .nonce_key(U256::zero())
        .max_priority_fee(1_000_000_000)
        .max_fee(2_000_000_000)
        .build();
    add(&mut pool, tx1, 0).unwrap();

    let tx2 = TxBuilder::aa(sender)
        .nonce_key(U256::zero())
        .max_priority_fee(1_000_000_001)
        .max_fee(2_000_000_001)
        .build();
    let tx2_hash = *tx2.hash();
    let result = add(&mut pool, tx2, 0);

    assert!(result.is_err());
    let err = result.unwrap_err();
    assert_eq!(err.hash, tx2_hash);
    assert!(
        matches!(err.kind, PoolErrorKind::ReplacementUnderpriced),
        "Expected ReplacementUnderpriced, got {:?}",
        err.kind
    );

    let (pending, queued) = pool.pending_and_queued_txn_count();
    assert_eq!(pending + queued, 1);

    assert!(pool.invariants_hold());
}

// ============================================
// Boundary tests (max_txs limit and discard)
// ============================================

#[test]
fn test_discard_at_max_txs_limit() {
    let config = AA2dPoolConfig {
        price_bump_config: PriceBumpConfig::default(),
        pending_limit: SubPoolLimit {
            max_txs: 3,
            max_size: usize::MAX,
        },
        queued_limit: SubPoolLimit {
            max_txs: 10000,
            max_size: usize::MAX,
        },
        max_txs_per_sender: DEFAULT_MAX_TXS_PER_SENDER,
    };
    let mut pool = AA2dPool::new(config);

    for i in 0..5usize {
        let sender = address(i as u128);
        let tx = TxBuilder::aa(sender).nonce_key(word(i as u64)).build();
        let result = add(&mut pool, tx, 0);
        assert!(result.is_ok());
    }

    let (pending, queued) = pool.pending_and_queued_txn_count();
    assert_eq!(pending + queued, 3, "Pool should be capped at max_txs=3");
    assert_eq!(pending, 3, "All remaining transactions should be pending");

    assert!(pool.invariants_hold());
}

#[test]
fn test_discard_removes_lowest_priority_same_priority_uses_submission_order() {
    let config = AA2dPoolConfig {
        price_bump_config: PriceBumpConfig::default(),
        pending_limit: SubPoolLimit {
            max_txs: 2,
            max_size: usize::MAX,
        },
        queued_limit: SubPoolLimit {
            max_txs: 10000,
            max_size: usize::MAX,
        },
        max_txs_per_sender: DEFAULT_MAX_TXS_PER_SENDER,
    };
    let mut pool = AA2dPool::new(config);
    let sender = address(0x3e);

    // All transactions have the same priority, so the tiebreaker is submission order.
    // The most recently submitted (tx2) should be evicted first.
    let tx0 = TxBuilder::aa(sender).nonce_key(U256::zero()).build();
    let tx1 = TxBuilder::aa(sender).nonce_key(U256::zero()).nonce(1).build();
    let tx2 = TxBuilder::aa(sender).nonce_key(U256::zero()).nonce(2).build();
    let tx0_hash = *tx0.hash();
    let tx1_hash = *tx1.hash();
    let tx2_hash = *tx2.hash();

    add(&mut pool, tx0, 0).unwrap();
    add(&mut pool, tx1, 0).unwrap();
    let result = add(&mut pool, tx2, 0);
    assert!(result.is_ok());

    let added = result.unwrap();
    if let AddedTransaction::Pending(pending) = added {
        assert!(
            !pending.discarded.is_empty(),
            "Should have discarded transactions"
        );
        assert_eq!(
            pending.discarded[0].hash(),
            &tx2_hash,
            "tx2 (last submitted, lowest priority tiebreaker) should be discarded"
        );
    } else {
        panic!("Expected Pending result");
    }

    assert!(pool.contains(&tx0_hash));
    assert!(pool.contains(&tx1_hash));
    assert!(!pool.contains(&tx2_hash));

    assert!(pool.invariants_hold());
}

/// Tests that queued transactions (with nonce gaps) also respect the max_txs limit.
#[test]
fn test_discard_enforced_for_queued_transactions() {
    let config = AA2dPoolConfig {
        price_bump_config: PriceBumpConfig::default(),
        pending_limit: SubPoolLimit {
            max_txs: 2,
            max_size: usize::MAX,
        },
        queued_limit: SubPoolLimit {
            max_txs: 2,
            max_size: usize::MAX,
        },
        max_txs_per_sender: DEFAULT_MAX_TXS_PER_SENDER,
    };
    let mut pool = AA2dPool::new(config);

    // Add 5 transactions each with a LARGE nonce gap so they are all queued
    for i in 0..5usize {
        let sender = address(i as u128);
        let tx = TxBuilder::aa(sender)
            .nonce_key(word(i as u64))
            .nonce(1000)
            .build();
        let result = add(&mut pool, tx, 0);
        assert!(result.is_ok(), "Transaction {i} should be added");
    }

    let (pending, queued) = pool.pending_and_queued_txn_count();
    assert_eq!(
        pending + queued,
        2,
        "Pool should be capped at max_txs=2, but has {pending} pending + {queued} queued",
    );

    assert!(pool.invariants_hold());
}

/// Verifies queued transactions respect their own limit independently
#[test]
fn test_queued_limit_enforced_separately() {
    let config = AA2dPoolConfig {
        price_bump_config: PriceBumpConfig::default(),
        pending_limit: SubPoolLimit {
            max_txs: 10,
            max_size: usize::MAX,
        },
        queued_limit: SubPoolLimit {
            max_txs: 3,
            max_size: usize::MAX,
        },
        max_txs_per_sender: DEFAULT_MAX_TXS_PER_SENDER,
    };
    let mut pool = AA2dPool::new(config);

    // Add 5 queued transactions (far-future nonces)
    for i in 0..5usize {
        let sender = address(i as u128);
        let tx = TxBuilder::aa(sender)
            .nonce_key(word(i as u64))
            .nonce(1000)
            .build();
        let _ = add(&mut pool, tx, 0);
    }

    let (pending, queued) = pool.pending_and_queued_txn_count();
    assert_eq!(queued, 3, "Queued should be capped at 3");
    assert_eq!(pending, 0, "No pending transactions");
    assert!(pool.invariants_hold());
}

/// Verifies pending transactions respect their own limit independently
#[test]
fn test_pending_limit_enforced_separately() {
    let config = AA2dPoolConfig {
        price_bump_config: PriceBumpConfig::default(),
        pending_limit: SubPoolLimit {
            max_txs: 3,
            max_size: usize::MAX,
        },
        queued_limit: SubPoolLimit {
            max_txs: 10,
            max_size: usize::MAX,
        },
        max_txs_per_sender: DEFAULT_MAX_TXS_PER_SENDER,
    };
    let mut pool = AA2dPool::new(config);

    // Add 5 pending transactions (nonce=0, different senders)
    for i in 0..5usize {
        let sender = address(i as u128);
        let tx = TxBuilder::aa(sender).nonce_key(word(i as u64)).build();
        let _ = add(&mut pool, tx, 0);
    }

    let (pending, queued) = pool.pending_and_queued_txn_count();
    assert_eq!(pending, 3, "Pending should be capped at 3");
    assert_eq!(queued, 0, "No queued transactions");
    assert!(pool.invariants_hold());
}

/// What an eviction of pending transactions demotes counts against the queued limit
#[test]
fn demoted_transactions_keep_to_the_queued_limit() {
    let config = |queued: usize| AA2dPoolConfig {
        price_bump_config: PriceBumpConfig::default(),
        pending_limit: SubPoolLimit { max_txs: 1, max_size: usize::MAX },
        queued_limit: SubPoolLimit { max_txs: queued, max_size: usize::MAX },
        max_txs_per_sender: DEFAULT_MAX_TXS_PER_SENDER,
    };
    let build = |nonce: u64, priority: u128| {
        TxBuilder::aa(address(0x51))
            .nonce_key(word(5))
            .nonce(nonce)
            .max_priority_fee(priority)
            .max_fee(2 * BASE_FEE as u128)
            .build()
    };

    // the lower nonce has the lower priority: its eviction demotes the other one
    let mut pool = AA2dPool::new(config(0));
    add(&mut pool, build(0, 1_000), 0).unwrap();
    let (evicted, demoted) = (*build(0, 1_000).hash(), *build(1, 2_000).hash());
    match add(&mut pool, build(1, 2_000), 0).unwrap() {
        AddedTransaction::Pending(pending) => {
            let discarded: Vec<B256> = pending.discarded.iter().map(|tx| *tx.hash()).collect();
            assert_eq!(discarded, vec![evicted, demoted]);
        }
        AddedTransaction::Parked { .. } => panic!("The transaction was pending when it was added"),
    }
    assert_eq!(pool.pending_and_queued_txn_count(), (0, 0));
    assert!(pool.invariants_hold());

    let mut pool = AA2dPool::new(config(1));
    add(&mut pool, build(0, 1_000), 0).unwrap();
    add(&mut pool, build(1, 2_000), 0).unwrap();
    assert_eq!(pool.pending_and_queued_txn_count(), (0, 1));
    assert!(pool.invariants_hold());
}

/// Verifies queued spam cannot evict pending transactions
#[test]
fn test_queued_eviction_does_not_affect_pending() {
    let config = AA2dPoolConfig {
        price_bump_config: PriceBumpConfig::default(),
        pending_limit: SubPoolLimit {
            max_txs: 5,
            max_size: usize::MAX,
        },
        queued_limit: SubPoolLimit {
            max_txs: 2,
            max_size: usize::MAX,
        },
        max_txs_per_sender: DEFAULT_MAX_TXS_PER_SENDER,
    };
    let mut pool = AA2dPool::new(config);

    // First add 3 pending transactions
    let mut pending_hashes = Vec::new();
    for i in 0..3usize {
        let sender = address(i as u128);
        let tx = TxBuilder::aa(sender).nonce_key(word(i as u64)).build();
        let hash = *tx.hash();
        pending_hashes.push(hash);
        let _ = add(&mut pool, tx, 0);
    }

    // Now flood with 10 queued transactions
    for i in 100..110usize {
        let sender = address(i as u128);
        let tx = TxBuilder::aa(sender)
            .nonce_key(word(i as u64))
            .nonce(1000)
            .build();
        let _ = add(&mut pool, tx, 0);
    }

    // All pending should still be there
    for hash in &pending_hashes {
        assert!(
            pool.contains(hash),
            "Pending tx should not be evicted by queued spam"
        );
    }

    let (pending, queued) = pool.pending_and_queued_txn_count();
    assert_eq!(pending, 3, "All 3 pending should remain");
    assert_eq!(queued, 2, "Queued capped at 2");
    assert!(pool.invariants_hold());
}

/// Tests that eviction is based on priority, not address ordering.
/// This prevents DoS attacks where adversaries use vanity addresses with leading zeroes.
#[test]
fn test_discard_evicts_low_priority_over_vanity_address() {
    let config = AA2dPoolConfig {
        price_bump_config: PriceBumpConfig::default(),
        pending_limit: SubPoolLimit {
            max_txs: 2,
            max_size: usize::MAX,
        },
        queued_limit: SubPoolLimit {
            max_txs: 10,
            max_size: usize::MAX,
        },
        max_txs_per_sender: DEFAULT_MAX_TXS_PER_SENDER,
    };
    let mut pool = AA2dPool::new(config);

    // Vanity address with leading zeroes (would sort first lexicographically)
    let vanity_sender = Address::zero(); // 0x0000...0000
    // Normal address (would sort later lexicographically)
    let normal_sender = Address { hi: u32::MAX, lo: u128::MAX }; // 0xffff...ffff

    // max_fee must be > TEMPO_T1_BASE_FEE (20 gwei) for priority calculation to work
    // effective_tip = min(max_fee - base_fee, max_priority_fee)
    let high_max_fee = 30_000_000_000u128; // 30 gwei, above 20 gwei base fee

    // Add vanity address tx with HIGH priority (should be kept despite sorting first lexicographically)
    // effective_tip = min(30 gwei - 20 gwei, 5 gwei) = 5 gwei
    let high_priority_tx = TxBuilder::aa(vanity_sender)
        .nonce_key(U256::zero())
        .max_fee(high_max_fee)
        .max_priority_fee(5_000_000_000) // 5 gwei priority
        .build();
    let high_priority_hash = *high_priority_tx.hash();

    // Add normal address tx with LOW priority (should be evicted)
    // effective_tip = min(30 gwei - 20 gwei, 1 wei) = 1 wei
    let low_priority_tx = TxBuilder::aa(normal_sender)
        .nonce_key(U256::zero())
        .max_fee(high_max_fee)
        .max_priority_fee(1) // Very low priority
        .build();
    let low_priority_hash = *low_priority_tx.hash();

    add(&mut pool, high_priority_tx, 0).unwrap();
    add(&mut pool, low_priority_tx, 0).unwrap();

    // Add a third tx that triggers eviction
    // effective_tip = min(30 gwei - 20 gwei, 3 gwei) = 3 gwei (medium)
    let trigger_tx = TxBuilder::aa(address(0x3f))
        .nonce_key(word(1))
        .max_fee(high_max_fee)
        .max_priority_fee(3_000_000_000) // 3 gwei - medium priority
        .build();
    let trigger_hash = *trigger_tx.hash();

    let result = add(&mut pool, trigger_tx, 0);
    assert!(result.is_ok());

    let added = result.unwrap();
    if let AddedTransaction::Pending(pending) = added {
        assert!(
            !pending.discarded.is_empty(),
            "Should have discarded transactions"
        );
        // The low priority tx (normal address) should be evicted, NOT the high priority vanity address
        assert_eq!(
            pending.discarded[0].hash(),
            &low_priority_hash,
            "Low priority tx should be evicted, not the high-priority vanity address tx"
        );
    } else {
        panic!("Expected Pending result");
    }

    // Verify: high priority vanity address tx should be kept, low priority normal address tx should be evicted
    assert!(
        pool.contains(&high_priority_hash),
        "High priority vanity address tx should be kept"
    );
    assert!(
        !pool.contains(&low_priority_hash),
        "Low priority tx should be evicted"
    );
    assert!(pool.contains(&trigger_hash), "Trigger tx should be kept");

    assert!(pool.invariants_hold());
}

/// Tests that a sender cannot exceed the per-sender transaction limit.
#[test]
fn test_per_sender_limit_rejects_excess_transactions() {
    let config = AA2dPoolConfig {
        price_bump_config: PriceBumpConfig::default(),
        pending_limit: SubPoolLimit {
            max_txs: 1000,
            max_size: usize::MAX,
        },
        queued_limit: SubPoolLimit {
            max_txs: 1000,
            max_size: usize::MAX,
        },
        max_txs_per_sender: 3,
    };
    let mut pool = AA2dPool::new(config);
    let sender = address(0x40);

    // Add transactions up to the limit
    for nonce in 0..3u64 {
        let tx = TxBuilder::aa(sender)
            .nonce_key(U256::zero())
            .nonce(nonce)
            .build();
        let result = add(&mut pool, tx, 0);
        assert!(result.is_ok(), "Transaction {nonce} should be accepted");
    }

    // The 4th transaction from the same sender should be rejected
    let tx = TxBuilder::aa(sender).nonce_key(U256::zero()).nonce(3).build();
    let result = add(&mut pool, tx, 0);
    assert!(result.is_err(), "4th transaction should be rejected");
    let err = result.unwrap_err();
    assert!(
        matches!(err.kind, PoolErrorKind::SpammerExceededCapacity(_)),
        "Error should be SpammerExceededCapacity, got {:?}",
        err.kind
    );

    // A different sender should still be able to add transactions
    let other_sender = address(0x41);
    let tx = TxBuilder::aa(other_sender).nonce_key(U256::zero()).build();
    let result = add(&mut pool, tx, 0);
    assert!(result.is_ok(), "Different sender should be accepted");

    assert!(pool.invariants_hold());
}

/// Tests that replacing a transaction doesn't count against the per-sender limit.
#[test]
fn test_per_sender_limit_allows_replacement() {
    let config = AA2dPoolConfig {
        price_bump_config: PriceBumpConfig::default(),
        pending_limit: SubPoolLimit {
            max_txs: 1000,
            max_size: usize::MAX,
        },
        queued_limit: SubPoolLimit {
            max_txs: 1000,
            max_size: usize::MAX,
        },
        max_txs_per_sender: 2,
    };
    let mut pool = AA2dPool::new(config);
    let sender = address(0x42);

    // Add 2 transactions to reach the limit
    for nonce in 0..2u64 {
        let tx = TxBuilder::aa(sender)
            .nonce_key(U256::zero())
            .nonce(nonce)
            .build();
        add(&mut pool, tx, 0).unwrap();
    }

    // Replace the first transaction with a higher fee (should succeed)
    let replacement_tx = TxBuilder::aa(sender)
        .nonce_key(U256::zero())
        .nonce(0)
        .max_fee(100_000_000_000) // Higher fee to pass replacement check
        .max_priority_fee(50_000_000_000)
        .build();
    let result = add(&mut pool, replacement_tx, 0);
    assert!(
        result.is_ok(),
        "Replacement should be allowed even at limit"
    );

    assert!(pool.invariants_hold());
}

/// Tests that removing a transaction frees up a slot for the sender.
#[test]
fn test_per_sender_limit_freed_after_removal() {
    let config = AA2dPoolConfig {
        price_bump_config: PriceBumpConfig::default(),
        pending_limit: SubPoolLimit {
            max_txs: 1000,
            max_size: usize::MAX,
        },
        queued_limit: SubPoolLimit {
            max_txs: 1000,
            max_size: usize::MAX,
        },
        max_txs_per_sender: 2,
    };
    let mut pool = AA2dPool::new(config);
    let sender = address(0x43);

    // Add 2 transactions to reach the limit
    let tx1 = TxBuilder::aa(sender).nonce_key(U256::zero()).nonce(0).build();
    let tx1_hash = *tx1.hash();
    add(&mut pool, tx1, 0).unwrap();

    let tx2 = TxBuilder::aa(sender).nonce_key(U256::zero()).nonce(1).build();
    add(&mut pool, tx2, 0).unwrap();

    // 3rd should fail
    let tx3 = TxBuilder::aa(sender).nonce_key(U256::zero()).nonce(2).build();
    let result = add(&mut pool, tx3.clone(), 0);
    assert!(result.is_err(), "3rd should be rejected at limit");

    // Remove the first transaction
    pool.remove_transactions(&[tx1_hash]);

    // Now adding the 3rd should succeed
    let result = add(&mut pool, tx3, 0);
    assert!(result.is_ok(), "3rd should succeed after removal");

    assert!(pool.invariants_hold());
}

/// Tests that expiring nonce transactions also respect per-sender limits.
#[test]
fn test_per_sender_limit_includes_expiring_nonce_txs() {
    let config = AA2dPoolConfig {
        price_bump_config: PriceBumpConfig::default(),
        pending_limit: SubPoolLimit {
            max_txs: 1000,
            max_size: usize::MAX,
        },
        queued_limit: SubPoolLimit {
            max_txs: 1000,
            max_size: usize::MAX,
        },
        max_txs_per_sender: 2,
    };
    let mut pool = AA2dPool::new(config);
    let sender = address(0x44);

    // Add one regular 2D nonce tx
    let tx1 = TxBuilder::aa(sender).nonce_key(U256::zero()).nonce(0).build();
    add(&mut pool, tx1, 0).unwrap();

    // Add one expiring nonce tx (nonce_key = U256::max_value())
    let tx2 = TxBuilder::aa(sender).nonce_key(U256::max_value()).nonce(0).build();
    add(&mut pool, tx2, 0).unwrap();

    // The 3rd transaction (either type) should be rejected
    let tx3 = TxBuilder::aa(sender)
        .nonce_key(word(1))
        .nonce(0)
        .build();
    let result = add(&mut pool, tx3, 0);
    assert!(
        result.is_err(),
        "3rd tx should be rejected due to per-sender limit"
    );

    assert!(pool.invariants_hold());
}

// ============================================
// Improved BestTransactions tests
// ============================================

#[test]
fn test_best_transactions_mark_invalid_skips_sequence() {
    let mut pool = AA2dPool::default();
    let sender1 = address(0x45);
    let sender2 = address(0x46);

    let tx1_0 = TxBuilder::aa(sender1).nonce_key(U256::zero()).build();
    let tx1_1 = TxBuilder::aa(sender1)
        .nonce_key(U256::zero())
        .nonce(1)
        .build();
    let tx2_0 = TxBuilder::aa(sender2).nonce_key(word(1)).build();

    let tx1_0_hash = *tx1_0.hash();
    let tx2_0_hash = *tx2_0.hash();

    add(&mut pool, tx1_0, 0).unwrap();
    add(&mut pool, tx1_1, 0).unwrap();
    add(&mut pool, tx2_0, 0).unwrap();

    let mut best = pool.best_transactions();

    let first = best.next().unwrap();
    let first_hash = *first.hash();

    let error =
        InvalidPoolTransactionError::Consensus(InvalidTransactionError::TxTypeNotSupported);
    best.mark_invalid(&first, error);

    let mut remaining_hashes = HashSet::new();
    while let Some(tx) = best.next() {
        remaining_hashes.insert(*tx.hash());
    }

    if first_hash == tx1_0_hash {
        assert!(
            !remaining_hashes.contains(&tx1_0_hash),
            "tx1_0 was consumed"
        );
        assert!(
            remaining_hashes.contains(&tx2_0_hash),
            "tx2_0 should still be yielded"
        );
    } else {
        assert!(
            remaining_hashes.contains(&tx1_0_hash) || remaining_hashes.contains(&tx2_0_hash),
            "At least one other independent tx should be yielded"
        );
    }
}

#[test]
fn test_best_transactions_order_by_priority() {
    let mut pool = AA2dPool::default();

    let sender1 = address(0x47);
    let sender2 = address(0x48);

    let low_priority = TxBuilder::aa(sender1)
        .nonce_key(U256::zero())
        .max_priority_fee(1_000_000)
        .max_fee(2_000_000)
        .build();
    let high_priority = TxBuilder::aa(sender2)
        .nonce_key(word(1))
        .max_priority_fee(10_000_000_000)
        .max_fee(20_000_000_000)
        .build();
    let high_priority_hash = *high_priority.hash();

    add(&mut pool, low_priority, 0).unwrap();
    add(&mut pool, high_priority, 0).unwrap();

    let mut best = pool.best_transactions();
    let first = best.next().unwrap();

    assert_eq!(
        first.hash(),
        &high_priority_hash,
        "Higher priority transaction should come first"
    );
}

// ============================================
// on_state_updates tests
// ============================================

#[test]
fn test_on_state_updates_with_bundle_account() {
    let mut pool = AA2dPool::default();
    let sender = address(0x49);
    let nonce_key = U256::zero();

    let tx0 = TxBuilder::aa(sender).nonce_key(nonce_key).build();
    let tx1 = TxBuilder::aa(sender).nonce_key(nonce_key).nonce(1).build();
    let tx2 = TxBuilder::aa(sender).nonce_key(nonce_key).nonce(2).build();

    add(&mut pool, tx0, 0).unwrap();
    add(&mut pool, tx1, 0).unwrap();
    add(&mut pool, tx2, 0).unwrap();

    let (pending, queued) = pool.pending_and_queued_txn_count();
    assert_eq!(pending, 3);
    assert_eq!(queued, 0);

    let state = vec![AccountUpdate { address: sender, nonce: Some(2), storage: Vec::new() }];

    let (promoted, mined) = pool.on_state_updates(&NONCE_MANAGER, &state);

    assert!(promoted.is_empty(), "tx2 was already pending");
    assert_eq!(mined.len(), 2, "tx0 and tx1 should be mined");

    let (pending, queued) = pool.pending_and_queued_txn_count();
    assert_eq!(pending, 1, "Only tx2 should remain pending");
    assert_eq!(queued, 0);

    assert!(pool.invariants_hold());
}

#[test]
fn a_block_sets_nonces_by_account_and_by_slot_and_marks_hashes_as_seen() {
    let mut pool = AA2dPool::default();
    let sender = address(0x4b);
    let plain = TxBuilder::aa(sender).build();
    let first = TxBuilder::aa(sender).nonce_key(word(7)).build();
    let second = TxBuilder::aa(sender).nonce_key(word(7)).nonce(1).build();
    let parked = TxBuilder::aa(sender).nonce_key(word(8)).nonce(5).build();
    let expiring = TxBuilder::aa(sender).nonce_key(U256::max_value()).valid_before(1_000).build();
    let kept = TxBuilder::aa(sender).nonce_key(U256::max_value()).valid_before(2_000).build();
    let slot_7 = first.inner.nonce_slot;
    let slot_8 = parked.inner.nonce_slot;
    let seen = expiring.inner.expiring_nonce_seen_slot;
    let unseen = kept.inner.expiring_nonce_seen_slot;
    let (plain_hash, first_hash, second_hash) = (*plain.hash(), *first.hash(), *second.hash());
    let (parked_hash, expiring_hash, kept_hash) = (*parked.hash(), *expiring.hash(), *kept.hash());
    for tx in [plain, first, second, parked, expiring, kept] {
        add(&mut pool, tx, 0).unwrap();
    }

    let state = vec![
        AccountUpdate {
            address: NONCE_MANAGER,
            nonce: None,
            storage: vec![
                (slot_7, word(1)),
                (slot_8, word(5)),
                (seen, word(1_000)),
                // a slot that is cleared marks nothing as seen
                (unseen, U256::zero()),
                // a slot that no transaction of the pool waits for
                (word(0xdead), word(9)),
            ],
        },
        AccountUpdate { address: sender, nonce: Some(1), storage: vec![(slot_7, word(99))] },
    ];
    let (promoted, mined) = pool.on_state_updates(&NONCE_MANAGER, &state);

    let promoted: HashSet<B256> = promoted.iter().map(|tx| *tx.hash()).collect();
    assert_eq!(promoted, HashSet::from([parked_hash]));
    let mined: HashSet<B256> = mined.iter().map(|tx| *tx.hash()).collect();
    assert_eq!(mined, HashSet::from([plain_hash, first_hash, expiring_hash]));
    assert!(pool.contains(&second_hash));
    assert!(pool.contains(&kept_hash));
    assert_eq!(pool.pending_and_queued_txn_count(), (3, 0));
    assert!(pool.invariants_hold());
}

#[test]
fn the_largest_nonce_can_be_next_in_line() {
    let mut pool = AA2dPool::default();
    let sender = address(0x4c);
    let tx = TxBuilder::aa(sender).nonce_key(word(7)).nonce(u64::MAX).build();
    let hash = *tx.hash();
    add(&mut pool, tx, 0).unwrap();
    assert_eq!(pool.pending_and_queued_txn_count(), (0, 1));

    let mut changes = SortedMap::new();
    changes.insert(AASequenceId::new(sender, word(7)), u64::MAX);
    let (promoted, mined) = pool.on_nonce_changes(&changes);
    assert_eq!(promoted.iter().map(|tx| *tx.hash()).collect::<Vec<_>>(), vec![hash]);
    assert!(mined.is_empty());
    assert_eq!(pool.pending_and_queued_txn_count(), (1, 0));
    assert!(pool.invariants_hold());
}

#[test]
fn test_on_state_updates_creates_gap_demotion() {
    let mut pool = AA2dPool::default();
    let sender = address(0x4a);
    let nonce_key = U256::zero();

    let tx0 = TxBuilder::aa(sender).nonce_key(nonce_key).build();
    let tx1 = TxBuilder::aa(sender).nonce_key(nonce_key).nonce(1).build();
    let tx3 = TxBuilder::aa(sender).nonce_key(nonce_key).nonce(3).build();

    add(&mut pool, tx0, 0).unwrap();
    add(&mut pool, tx1, 0).unwrap();
    add(&mut pool, tx3, 0).unwrap();

    let (pending, queued) = pool.pending_and_queued_txn_count();
    assert_eq!(pending, 2);
    assert_eq!(queued, 1);

    let state = vec![AccountUpdate { address: sender, nonce: Some(2), storage: Vec::new() }];

    let (promoted, mined) = pool.on_state_updates(&NONCE_MANAGER, &state);

    assert_eq!(mined.len(), 2, "tx0 and tx1 should be mined");
    assert!(promoted.is_empty());

    let (pending, queued) = pool.pending_and_queued_txn_count();
    assert_eq!(pending, 0, "tx3 should still be queued (gap at nonce 2)");
    assert_eq!(queued, 1);

    assert!(pool.invariants_hold());
}

#[test]
fn test_on_nonce_changes_promotes_queued_transactions() {
    let mut pool = AA2dPool::default();
    let sender = address(0x4b);
    let nonce_key = U256::zero();
    let seq_id = AASequenceId::new(sender, nonce_key);

    let tx2 = TxBuilder::aa(sender).nonce_key(nonce_key).nonce(2).build();
    let tx3 = TxBuilder::aa(sender).nonce_key(nonce_key).nonce(3).build();

    add(&mut pool, tx2.clone(), 0).unwrap();
    add(&mut pool, tx3, 0).unwrap();

    let (pending, queued) = pool.pending_and_queued_txn_count();
    assert_eq!(pending, 0);
    assert_eq!(queued, 2);

    let mut changes = SortedMap::new();
    changes.insert(seq_id, 2u64);

    let (promoted, mined) = pool.on_nonce_changes(&changes);

    assert!(
        mined.is_empty(),
        "No transactions to mine (on-chain nonce jumped)"
    );
    assert_eq!(promoted.len(), 2, "tx2 and tx3 should be promoted");
    assert!(promoted.iter().any(|t| t.hash() == tx2.hash()));

    let (pending, queued) = pool.pending_and_queued_txn_count();
    assert_eq!(pending, 2);
    assert_eq!(queued, 0);

    assert!(pool.invariants_hold());
}

// ============================================
// Interleaved inserts across sequence IDs
// ============================================

#[test]
fn test_interleaved_inserts_multiple_nonce_keys() {
    let mut pool = AA2dPool::default();
    let sender = address(0x4c);

    let key_a = U256::zero();
    let key_b = word(1);

    let tx_a0 = TxBuilder::aa(sender).nonce_key(key_a).build();
    let tx_b0 = TxBuilder::aa(sender).nonce_key(key_b).build();
    let tx_a1 = TxBuilder::aa(sender).nonce_key(key_a).nonce(1).build();
    let tx_b2 = TxBuilder::aa(sender).nonce_key(key_b).nonce(2).build();
    let tx_b1 = TxBuilder::aa(sender).nonce_key(key_b).nonce(1).build();

    add(&mut pool, tx_a0, 0).unwrap();
    add(&mut pool, tx_b0, 0).unwrap();
    add(&mut pool, tx_a1, 0).unwrap();
    add(&mut pool, tx_b2, 0).unwrap();
    add(&mut pool, tx_b1, 0).unwrap();

    let (pending, queued) = pool.pending_and_queued_txn_count();
    assert_eq!(pending, 5, "All transactions should be pending");
    assert_eq!(queued, 0);

    assert_eq!(
        pool.independent_transactions.len(),
        2,
        "Two nonce keys = two independent txs"
    );

    assert!(pool.invariants_hold());
}

#[test]
fn test_same_sender_different_nonce_keys_independent() {
    let mut pool = AA2dPool::default();
    let sender = address(0x4d);

    let key_a = word(100);
    let key_b = word(200);

    let tx_a5 = TxBuilder::aa(sender).nonce_key(key_a).nonce(5).build();
    let tx_b0 = TxBuilder::aa(sender).nonce_key(key_b).build();

    add(&mut pool, tx_a5, 5).unwrap();
    add(&mut pool, tx_b0, 0).unwrap();

    let (pending, queued) = pool.pending_and_queued_txn_count();
    assert_eq!(pending, 2);
    assert_eq!(queued, 0);

    assert_eq!(pool.independent_transactions.len(), 2);

    assert!(pool.invariants_hold());
}

/// Test reorg handling when on-chain nonce decreases.
///
/// When a reorg occurs, the canonical nonce can decrease. If no transaction
/// exists at the new on-chain nonce, `independent_transactions` must be cleared.
#[test]
fn reorg_nonce_decrease_clears_stale_independent_transaction() {
    check_reorg_nonce_decrease_clears_stale_independent_transaction(U256::zero());
    check_reorg_nonce_decrease_clears_stale_independent_transaction(U256 { hi: 0x9e7769b10f4205b4, lo: 0x7f15052434b9b5df });
}

fn check_reorg_nonce_decrease_clears_stale_independent_transaction(nonce_key: U256) {
    let mut pool = AA2dPool::default();
    let sender = address(0x4e);
    let seq_id = AASequenceId::new(sender, nonce_key);

    // Step 1: Add txs with nonces [3, 4, 5], starting with on_chain_nonce=3
    let tx3 = TxBuilder::aa(sender).nonce_key(nonce_key).nonce(3).build();
    let tx4 = TxBuilder::aa(sender).nonce_key(nonce_key).nonce(4).build();
    let tx5 = TxBuilder::aa(sender).nonce_key(nonce_key).nonce(5).build();
    let tx5_hash = *tx5.hash();

    add(&mut pool, tx3, 3).unwrap();
    add(&mut pool, tx4, 3).unwrap();
    add(&mut pool, tx5, 3).unwrap();

    // Verify initial state: all 3 txs pending, tx3 is independent
    let (pending, queued) = pool.pending_and_queued_txn_count();
    assert_eq!(pending, 3, "All transactions should be pending");
    assert_eq!(queued, 0);
    assert_eq!(pool.independent_transactions.len(), 1);
    assert_eq!(
        pool.independent_transactions
            .get(&seq_id)
            .unwrap()
            .transaction
            .nonce(),
        3,
        "tx3 should be independent initially"
    );
    assert!(pool.invariants_hold());

    // Step 2: Simulate mining of tx3 and tx4, on_chain_nonce becomes 5
    let mut on_chain_ids = SortedMap::new();
    on_chain_ids.insert(seq_id, 5u64);
    let (promoted, mined) = pool.on_nonce_changes(&on_chain_ids);

    assert_eq!(mined.len(), 2, "tx3 and tx4 should be mined");
    assert!(promoted.is_empty(), "No promotions expected");

    // Now tx5 should be the only tx in pool and be independent
    let (pending, queued) = pool.pending_and_queued_txn_count();
    assert_eq!(pending, 1, "Only tx5 should remain pending");
    assert_eq!(queued, 0);
    assert_eq!(pool.independent_transactions.len(), 1);
    assert_eq!(
        pool.independent_transactions
            .get(&seq_id)
            .unwrap()
            .transaction
            .hash(),
        &tx5_hash,
        "tx5 should be independent after mining"
    );
    assert!(pool.invariants_hold());

    // Step 3: Simulate reorg - nonce decreases back to 3
    let mut on_chain_ids = SortedMap::new();
    on_chain_ids.insert(seq_id, 3u64);
    let (promoted, mined) = pool.on_nonce_changes(&on_chain_ids);

    // No transactions should be mined (tx5.nonce=5 >= on_chain_nonce=3)
    assert!(mined.is_empty(), "No transactions should be mined");
    // No promotions expected
    assert!(promoted.is_empty(), "No promotions expected");

    // tx5 should still be in the pool but is now QUEUED (gap at nonces 3, 4)
    let (pending, queued) = pool.pending_and_queued_txn_count();
    assert_eq!(pending, 0, "tx5 should not be pending (nonce gap)");
    assert_eq!(queued, 1, "tx5 should be queued");

    // No tx at on_chain_nonce=3, so independent_transactions should be cleared
    assert!(
        !pool.independent_transactions.contains_key(&seq_id),
        "independent_transactions should not contain stale entry after reorg"
    );

    assert!(pool.invariants_hold());
}

/// Simulates the full flow of a reorg:
///
/// 1. Add txs [3, 4, 5] → all pending
/// 2. Mine tx3 and tx4 via on_nonce_changes(nonce=5) → tx5 remains pending
/// 3. Reorg reverts the block: the node re-injects orphaned tx3 and tx4 via add_transaction
///    with the correct on_chain_nonce=3 (read from the new tip's state).
///
/// This verifies that add_transaction's rescan from on_chain_nonce correctly
/// reclassifies all transactions as pending without needing an explicit nonce reset.
#[test]
fn reorg_reinjection_via_add_transaction_restores_pending_state() {
    check_reorg_reinjection_via_add_transaction_restores_pending_state(U256::zero());
    check_reorg_reinjection_via_add_transaction_restores_pending_state(U256 { hi: 0x881ed162ae2eb154, lo: 0xc6f877186d76b07e });
}

fn check_reorg_reinjection_via_add_transaction_restores_pending_state(nonce_key: U256) {
    let mut pool = AA2dPool::default();
    let sender = address(0x4f);
    let seq_id = AASequenceId::new(sender, nonce_key);

    // Step 1: Add txs with nonces [3, 4, 5], on_chain_nonce=3
    let tx3 = TxBuilder::aa(sender).nonce_key(nonce_key).nonce(3).build();
    let tx4 = TxBuilder::aa(sender).nonce_key(nonce_key).nonce(4).build();
    let tx5 = TxBuilder::aa(sender).nonce_key(nonce_key).nonce(5).build();
    let tx3_hash = *tx3.hash();
    let tx4_hash = *tx4.hash();
    let tx5_hash = *tx5.hash();

    add(&mut pool, tx3.clone(), 3).unwrap();
    add(&mut pool, tx4.clone(), 3).unwrap();
    add(&mut pool, tx5, 3).unwrap();

    let (pending, queued) = pool.pending_and_queued_txn_count();
    assert_eq!(pending, 3);
    assert_eq!(queued, 0);
    assert!(pool.invariants_hold());

    // Step 2: Mine tx3 and tx4 (on_chain_nonce becomes 5)
    let mut nonce_changes = SortedMap::new();
    nonce_changes.insert(seq_id, 5u64);
    let (_promoted, mined) = pool.on_nonce_changes(&nonce_changes);
    assert_eq!(mined.len(), 2);

    let (pending, queued) = pool.pending_and_queued_txn_count();
    assert_eq!(pending, 1, "only tx5 should remain pending");
    assert_eq!(queued, 0);
    assert!(pool.invariants_hold());

    // Step 3: Simulate reorg — the node re-injects orphaned tx3 and tx4 via add_transaction
    // with the correct on_chain_nonce=3 (reverted state).
    pool.add_transaction(
        Arc::new(wrap_valid_tx(tx3, TransactionOrigin::External)),
        3,
        TempoHardfork::T1,
        BASE_FEE,
    )
    .unwrap();
    pool.add_transaction(
        Arc::new(wrap_valid_tx(tx4, TransactionOrigin::External)),
        3,
        TempoHardfork::T1,
        BASE_FEE,
    )
    .unwrap();

    // All 3 txs should be pending again — add_transaction rescans from on_chain_nonce
    let (pending, queued) = pool.pending_and_queued_txn_count();
    assert_eq!(pending, 3, "all txs should be pending after re-injection");
    assert_eq!(queued, 0);

    // tx3 should be independent (at on_chain_nonce)
    assert_eq!(
        pool.independent_transactions
            .get(&seq_id)
            .unwrap()
            .transaction
            .nonce(),
        3,
    );

    // All txs should be in the pool
    assert!(pool.contains(&tx3_hash));
    assert!(pool.contains(&tx4_hash));
    assert!(pool.contains(&tx5_hash));

    assert!(pool.invariants_hold());
}

/// Test that gap demotion marks ALL subsequent transactions as non-pending.
///
/// When a transaction is removed creating a gap, all transactions after the gap
/// should be marked as queued (is_pending=false), not just the first one.
#[test]
fn gap_demotion_marks_all_subsequent_transactions_as_queued() {
    check_gap_demotion_marks_all_subsequent_transactions_as_queued(U256::zero());
    check_gap_demotion_marks_all_subsequent_transactions_as_queued(U256 { hi: 0x7731af10506bf2ef, lo: 0xec66a78795e761d1 });
}

fn check_gap_demotion_marks_all_subsequent_transactions_as_queued(nonce_key: U256) {
    let mut pool = AA2dPool::default();
    let sender = address(0x50);
    let seq_id = AASequenceId::new(sender, nonce_key);

    // Step 1: Add txs with nonces [5, 6, 7, 8], on_chain_nonce=5
    let tx5 = TxBuilder::aa(sender).nonce_key(nonce_key).nonce(5).build();
    let tx6 = TxBuilder::aa(sender).nonce_key(nonce_key).nonce(6).build();
    let tx7 = TxBuilder::aa(sender).nonce_key(nonce_key).nonce(7).build();
    let tx8 = TxBuilder::aa(sender).nonce_key(nonce_key).nonce(8).build();
    let tx6_hash = *tx6.hash();

    add(&mut pool, tx5, 5).unwrap();
    add(&mut pool, tx6, 5).unwrap();
    add(&mut pool, tx7, 5).unwrap();
    add(&mut pool, tx8, 5).unwrap();

    // Verify initial state: all 4 txs pending
    let (pending, queued) = pool.pending_and_queued_txn_count();
    assert_eq!(pending, 4, "All transactions should be pending initially");
    assert_eq!(queued, 0);
    assert_eq!(pool.independent_transactions.len(), 1);
    assert!(pool.invariants_hold());

    // Step 2: Remove tx6 to create a gap at nonce 6
    // Pool now has: [5, _, 7, 8] where _ is the gap
    let removed = pool.remove_transactions(&[tx6_hash]);
    assert_eq!(removed.len(), 1, "Should remove exactly tx6");

    // Step 3: Trigger nonce change processing to re-evaluate pending status
    // The on-chain nonce is still 5
    let mut on_chain_ids = SortedMap::new();
    on_chain_ids.insert(seq_id, 5u64);
    let (promoted, mined) = pool.on_nonce_changes(&on_chain_ids);

    assert!(mined.is_empty(), "No transactions should be mined");
    assert!(promoted.is_empty(), "No promotions expected");

    // Step 4: Verify that tx7 AND tx8 are both queued (not pending)
    let (pending, queued) = pool.pending_and_queued_txn_count();
    assert_eq!(
        pending, 1,
        "Only tx5 should be pending (tx7 and tx8 are after the gap)"
    );
    assert_eq!(
        queued, 2,
        "tx7 and tx8 should both be queued due to gap at nonce 6"
    );

    assert!(pool.invariants_hold());
}

#[test]
fn expiring_nonce_tx_increments_pending_count() {
    let mut pool = AA2dPool::default();
    let sender = address(0x51);

    // Create an expiring nonce transaction (nonce_key = U256::max_value())
    let tx = TxBuilder::aa(sender).nonce_key(U256::max_value()).build();
    let valid_tx = wrap_valid_tx(tx, TransactionOrigin::Local);

    // Add the expiring nonce transaction
    let result = pool.add_transaction(Arc::new(valid_tx), 0, TempoHardfork::T1, BASE_FEE);
    assert!(result.is_ok(), "Transaction should be added successfully");
    assert!(
        matches!(result.unwrap(), AddedTransaction::Pending(_)),
        "Expiring nonce transaction should be pending"
    );

    // Verify counts - expiring nonce txs should increment pending_count
    let (pending, queued) = pool.pending_and_queued_txn_count();
    assert_eq!(pending, 1, "Should have 1 pending transaction");
    assert_eq!(queued, 0, "Should have 0 queued transactions");

    // This will fail if pending_count wasn't incremented
    assert!(pool.invariants_hold());
}

#[test]
fn expiring_nonce_tx_dedup_uses_expiring_nonce_hash() {
    let mut pool = AA2dPool::default();
    let sender = address(0x52);
    let build_tx = |r: u64, s: u64| {
        TxBuilder::aa(sender)
            .nonce_key(U256::max_value())
            .max_priority_fee(1_000_000_000)
            .max_fee(2_000_000_000)
            .fee_payer_signature(r, s)
            .valid_before(123)
            .build()
    };

    let tx1 = build_tx(1, 2);
    let tx2 = build_tx(3, 4);

    assert_ne!(tx1.hash(), tx2.hash(), "tx hashes must differ");
    let expiring_hash_1 = tx1
        .expiring_nonce_hash()
        .expect("expiring nonce tx must be AA");
    let expiring_hash_2 = tx2
        .expiring_nonce_hash()
        .expect("expiring nonce tx must be AA");
    assert_eq!(
        expiring_hash_1, expiring_hash_2,
        "expiring nonce hashes must match"
    );

    let tx1_hash = *tx1.hash();
    add(&mut pool, tx1, 0).unwrap();

    let tx2_hash = *tx2.hash();
    let result = add(&mut pool, tx2, 0);
    assert!(result.is_err(), "Expected AlreadyImported error");
    let err = result.unwrap_err();
    assert_eq!(err.hash, tx2_hash);
    assert!(
        matches!(err.kind, PoolErrorKind::AlreadyImported),
        "Expected AlreadyImported, got {:?}",
        err.kind
    );

    let (pending, queued) = pool.pending_and_queued_txn_count();
    assert_eq!(pending, 1, "Expected 1 pending transaction");
    assert_eq!(queued, 0, "Expected 0 queued transactions");
    assert!(pool.by_hash.contains_key(&tx1_hash));
    assert_eq!(pool.expiring_nonce_txs.len(), 1);
    assert!(pool.invariants_hold());
}

/// Verifies that removing an expiring nonce tx by hash correctly cleans up
/// both `expiring_nonce_txs` and `by_hash`.
#[test]
fn remove_included_expiring_nonce_tx_uses_correct_key() {
    let mut pool = AA2dPool::default();
    let sender = address(0x55);
    let pooled = TxBuilder::aa(sender)
        .nonce_key(U256::max_value())
        .max_priority_fee(1_000_000_000)
        .max_fee(2_000_000_000)
        .fee_payer_signature(1, 2)
        .valid_before(123)
        .build();

    let tx_hash = *pooled.hash();
    add(&mut pool, pooled, 0).unwrap();

    assert_eq!(pool.expiring_nonce_txs.len(), 1);
    assert!(pool.by_hash.contains_key(&tx_hash));
    assert!(pool.invariants_hold());

    // Simulate block mining: remove by tx_hash
    let removed = pool.remove_transactions(&[tx_hash]);
    assert_eq!(removed.len(), 1, "should remove the tx by its tx_hash");
    assert_eq!(*removed[0].hash(), tx_hash);

    // Both maps must be empty
    assert!(
        pool.expiring_nonce_txs.is_empty(),
        "expiring_nonce_txs not cleaned up"
    );
    assert!(
        !pool.by_hash.contains_key(&tx_hash),
        "by_hash not cleaned up"
    );

    let (pending, queued) = pool.pending_and_queued_txn_count();
    assert_eq!(pending, 0);
    assert_eq!(queued, 0);
    assert!(pool.invariants_hold());
}

/// Pool with pending limit of 2 for eviction tests.
fn eviction_test_pool() -> AA2dPool {
    AA2dPool::new(AA2dPoolConfig {
        pending_limit: SubPoolLimit {
            max_txs: 2,
            max_size: usize::MAX,
        },
        queued_limit: SubPoolLimit {
            max_txs: 10,
            max_size: usize::MAX,
        },
        ..Default::default()
    })
}

#[test]
fn eviction_same_priority_evicts_newer() {
    // Direction 1: newer expiring tx evicted over older 2D txs
    let mut pool = eviction_test_pool();
    let sender = address(0x58);

    let tx1 = TxBuilder::aa(sender)
        .nonce_key(word(1))
        .nonce(0)
        .build();
    let tx2 = TxBuilder::aa(sender)
        .nonce_key(word(2))
        .nonce(0)
        .build();
    let tx_exp = TxBuilder::aa(sender).nonce_key(U256::max_value()).build();

    add(&mut pool, tx1.clone(), 0).unwrap();
    add(&mut pool, tx2.clone(), 0).unwrap();
    let result = add(&mut pool, tx_exp.clone(), 0).unwrap();

    let AddedTransaction::Pending(pending) = result else {
        panic!("expected pending")
    };
    assert_eq!(pending.discarded[0].hash(), tx_exp.hash());
    assert!(pool.contains(tx1.hash()));
    assert!(pool.contains(tx2.hash()));
    assert!(!pool.contains(tx_exp.hash()));
    assert!(pool.invariants_hold());

    // Test opposite direction where newer 2D tx evicted over older expiring tx
    let mut pool = eviction_test_pool();
    let sender = address(0x59);

    let tx_exp = TxBuilder::aa(sender).nonce_key(U256::max_value()).build();
    let tx2 = TxBuilder::aa(sender)
        .nonce_key(word(1))
        .nonce(0)
        .build();
    let tx3 = TxBuilder::aa(sender)
        .nonce_key(word(2))
        .nonce(0)
        .build();

    add(&mut pool, tx_exp.clone(), 0).unwrap();
    add(&mut pool, tx2.clone(), 0).unwrap();
    let result = add(&mut pool, tx3.clone(), 0).unwrap();

    let AddedTransaction::Pending(pending) = result else {
        panic!("expected pending")
    };
    assert_eq!(pending.discarded[0].hash(), tx3.hash());
    assert!(pool.contains(tx_exp.hash()));
    assert!(pool.contains(tx2.hash()));
    assert!(!pool.contains(tx3.hash()));
    assert!(pool.invariants_hold());
}

#[test]
fn eviction_lower_priority_expiring_evicted() {
    let mut pool = eviction_test_pool();
    let sender = address(0x5a);

    // Expiring nonce tx added first but with lower priority
    let tx_exp = TxBuilder::aa(sender)
        .nonce_key(U256::max_value())
        .max_priority_fee(100)
        .max_fee(200)
        .build();
    let tx2 = TxBuilder::aa(sender)
        .nonce_key(word(1))
        .nonce(0)
        .build();
    let tx3 = TxBuilder::aa(sender)
        .nonce_key(word(2))
        .nonce(0)
        .build();

    add(&mut pool, tx_exp.clone(), 0).unwrap();
    add(&mut pool, tx2, 0).unwrap();
    let result = add(&mut pool, tx3.clone(), 0).unwrap();

    // Lower-priority expiring tx evicted even though it was added first
    let AddedTransaction::Pending(pending) = result else {
        panic!("expected pending")
    };
    assert_eq!(pending.discarded[0].hash(), tx_exp.hash());
    assert!(!pool.contains(tx_exp.hash()));
    assert!(pool.contains(tx3.hash()));
    assert!(pool.invariants_hold());
}

#[test]
fn eviction_lower_priority_2d_evicted() {
    let mut pool = eviction_test_pool();
    let sender = address(0x5b);

    // 2D tx with low priority added first
    let tx_low = TxBuilder::aa(sender)
        .nonce_key(word(1))
        .nonce(0)
        .max_priority_fee(100)
        .max_fee(200)
        .build();
    let tx_exp = TxBuilder::aa(sender).nonce_key(U256::max_value()).build();
    let tx3 = TxBuilder::aa(sender)
        .nonce_key(word(2))
        .nonce(0)
        .build();

    add(&mut pool, tx_low.clone(), 0).unwrap();
    add(&mut pool, tx_exp.clone(), 0).unwrap();
    let result = add(&mut pool, tx3, 0).unwrap();

    // Lower-priority 2D tx evicted even though expiring nonce tx is newer
    let AddedTransaction::Pending(pending) = result else {
        panic!("expected pending")
    };
    assert_eq!(pending.discarded[0].hash(), tx_low.hash());
    assert!(!pool.contains(tx_low.hash()));
    assert!(pool.contains(tx_exp.hash()));
    assert!(pool.invariants_hold());
}

#[test]
fn expiring_nonce_tx_subject_to_eviction() {
    // Create pool with very small pending limit
    let config = AA2dPoolConfig {
        pending_limit: SubPoolLimit {
            max_txs: 2,
            max_size: usize::MAX,
        },
        queued_limit: SubPoolLimit {
            max_txs: 10,
            max_size: usize::MAX,
        },
        ..Default::default()
    };
    let mut pool = AA2dPool::new(config);
    let sender = address(0x5c);

    // Add 3 expiring nonce transactions - should evict to maintain limit of 2
    for i in 0..3 {
        let tx = TxBuilder::aa(sender)
            .nonce_key(U256::max_value())
            .max_priority_fee(1_000_000_000 + i as u128 * 100_000_000)
            .max_fee(2_000_000_000 + i as u128 * 100_000_000)
            .build();
        let valid_tx = wrap_valid_tx(tx, TransactionOrigin::Local);
        let _ = pool.add_transaction(Arc::new(valid_tx), 0, TempoHardfork::T1, BASE_FEE);
    }

    // Should only have 2 transactions (evicted one to maintain limit)
    let (pending, queued) = pool.pending_and_queued_txn_count();
    assert!(
        pending <= 2,
        "Should have at most 2 pending transactions due to limit, got {pending}"
    );
    assert_eq!(queued, 0, "Should have 0 queued transactions");

    assert!(pool.invariants_hold());
}

#[test]
fn remove_expiring_nonce_tx_decrements_pending_count() {
    let mut pool = AA2dPool::default();
    let sender = address(0x5d);

    // Add two expiring nonce transactions
    let tx1 = TxBuilder::aa(sender)
        .nonce_key(U256::max_value())
        .max_priority_fee(1_000_000_000)
        .max_fee(2_000_000_000)
        .build();
    let valid_tx1 = wrap_valid_tx(tx1, TransactionOrigin::Local);
    let tx1_hash = *valid_tx1.hash();

    let tx2 = TxBuilder::aa(sender)
        .nonce_key(U256::max_value())
        .max_priority_fee(1_100_000_000)
        .max_fee(2_200_000_000)
        .build();
    let valid_tx2 = wrap_valid_tx(tx2, TransactionOrigin::Local);

    pool.add_transaction(Arc::new(valid_tx1), 0, TempoHardfork::T1, BASE_FEE)
        .unwrap();
    pool.add_transaction(Arc::new(valid_tx2), 0, TempoHardfork::T1, BASE_FEE)
        .unwrap();

    // Verify we have 2 pending
    let (pending, _) = pool.pending_and_queued_txn_count();
    assert_eq!(pending, 2, "Should have 2 pending transactions");
    assert!(pool.invariants_hold());

    // Remove one via hash
    let removed = pool.remove_transactions(&[tx1_hash]);
    assert_eq!(removed.len(), 1, "Should remove exactly 1 transaction");

    // Verify pending count decremented
    let (pending, _) = pool.pending_and_queued_txn_count();
    assert_eq!(
        pending, 1,
        "Should have 1 pending transaction after removal"
    );

    // This will fail if pending_count wasn't decremented
    assert!(pool.invariants_hold());
}

#[test]
fn remove_expiring_nonce_tx_by_hash_updates_pending_count() {
    let mut pool = AA2dPool::default();
    let sender = address(0x5e);

    let tx = TxBuilder::aa(sender)
        .nonce_key(U256::max_value())
        .max_priority_fee(1_000_000_000)
        .max_fee(2_000_000_000)
        .build();
    let valid_tx = wrap_valid_tx(tx, TransactionOrigin::Local);
    let tx_hash = *valid_tx.hash();

    pool.add_transaction(Arc::new(valid_tx), 0, TempoHardfork::T1, BASE_FEE)
        .unwrap();

    let (pending, _) = pool.pending_and_queued_txn_count();
    assert_eq!(pending, 1);
    assert!(pool.invariants_hold());

    // Remove via remove_transactions (uses remove_transaction_by_hash_no_demote)
    let removed = pool.remove_transactions(&[tx_hash]);
    assert_eq!(removed.len(), 1);

    let (pending, _) = pool.pending_and_queued_txn_count();
    assert_eq!(pending, 0);
    assert!(pool.invariants_hold());
}

#[test]
fn remove_expiring_nonce_tx_by_sender_updates_pending_count() {
    let mut pool = AA2dPool::default();
    let sender = address(0x5f);

    let tx1 = TxBuilder::aa(sender)
        .nonce_key(U256::max_value())
        .max_priority_fee(1_000_000_000)
        .max_fee(2_000_000_000)
        .build();
    let valid_tx1 = wrap_valid_tx(tx1, TransactionOrigin::Local);

    let tx2 = TxBuilder::aa(sender)
        .nonce_key(U256::max_value())
        .max_priority_fee(1_100_000_000)
        .max_fee(2_200_000_000)
        .build();
    let valid_tx2 = wrap_valid_tx(tx2, TransactionOrigin::Local);

    pool.add_transaction(Arc::new(valid_tx1), 0, TempoHardfork::T1, BASE_FEE)
        .unwrap();
    pool.add_transaction(Arc::new(valid_tx2), 0, TempoHardfork::T1, BASE_FEE)
        .unwrap();

    let (pending, _) = pool.pending_and_queued_txn_count();
    assert_eq!(pending, 2);
    assert!(pool.invariants_hold());

    // Remove via remove_transactions_by_sender
    let removed = pool.remove_transactions_by_sender(sender);
    assert_eq!(removed.len(), 2);

    let (pending, _) = pool.pending_and_queued_txn_count();
    assert_eq!(pending, 0);
    assert!(pool.invariants_hold());
}

#[test]
fn test_rejected_2d_tx_does_not_leak_slot_entries() {
    let config = AA2dPoolConfig {
        price_bump_config: PriceBumpConfig::default(),
        pending_limit: SubPoolLimit {
            max_txs: 1000,
            max_size: usize::MAX,
        },
        queued_limit: SubPoolLimit {
            max_txs: 1000,
            max_size: usize::MAX,
        },
        max_txs_per_sender: 1,
    };
    let mut pool = AA2dPool::new(config);
    let sender = address(0x60);

    let tx0 = TxBuilder::aa(sender)
        .nonce_key(word(1))
        .nonce(0)
        .build();
    add(&mut pool, tx0, 0).unwrap();

    assert_eq!(pool.slot_to_seq_id.len(), 1);

    for i in 2..12u64 {
        let tx = TxBuilder::aa(sender)
            .nonce_key(word(i as u64))
            .nonce(0)
            .build();
        let result = add(&mut pool, tx, 0);
        assert!(
            result.is_err(),
            "tx with nonce_key {i} should be rejected by sender limit"
        );
    }

    assert_eq!(
        pool.slot_to_seq_id.len(),
        1,
        "rejected txs with new nonce keys should not grow slot_to_seq_id"
    );
    assert!(pool.invariants_hold());
}

#[test]
fn best_transactions_live_new_tx() {
    check_best_transactions_live_new_tx(false);
    check_best_transactions_live_new_tx(true);
}

fn check_best_transactions_live_new_tx(no_updates: bool) {
    let mut pool = AA2dPool::default();
    let sender = address(0x61);

    // Add one tx before creating the iterator
    let tx0 = TxBuilder::aa(sender).nonce_key(U256::zero()).build();
    let tx0_hash = *tx0.hash();
    add(&mut pool, tx0, 0).unwrap();

    let mut best = live(&mut pool);
    if no_updates {
        best.no_updates();
    }

    // Add a new tx from a different sender while iterator is active
    let sender2 = address(0x62);
    let tx1 = TxBuilder::aa(sender2).nonce_key(U256::zero()).build();
    let tx1_hash = *tx1.hash();
    add(&mut pool, tx1, 0).unwrap();
    relay(&mut pool, &mut best);

    let mut yielded = HashSet::new();
    while let Some(tx) = best.next() {
        yielded.insert(*tx.hash());
    }

    assert!(
        yielded.contains(&tx0_hash),
        "should always yield pre-existing tx"
    );
    assert_eq!(
        yielded.contains(&tx1_hash),
        !no_updates,
        "new tx should only be yielded when live updates are enabled"
    );
}

#[test]
fn best_transactions_live_promoted() {
    let mut pool = AA2dPool::default();
    let sender = address(0x63);

    // Insert tx with nonce=1 (queued due to gap)
    let tx1 = TxBuilder::aa(sender).nonce_key(U256::zero()).nonce(1).build();
    let tx1_hash = *tx1.hash();
    add(&mut pool, tx1, 0).unwrap();

    // Create iterator — snapshot is empty (tx1 is queued)
    let mut best = live(&mut pool);
    assert!(best.next().is_none(), "no pending txs yet");

    // Fill the gap with nonce=0, promoting tx1
    let tx0 = TxBuilder::aa(sender).nonce_key(U256::zero()).nonce(0).build();
    let tx0_hash = *tx0.hash();
    add(&mut pool, tx0, 0).unwrap();
    relay(&mut pool, &mut best);

    let mut yielded = HashSet::new();
    while let Some(tx) = best.next() {
        yielded.insert(*tx.hash());
    }

    assert_eq!(yielded.len(), 2, "should yield both tx0 and promoted tx1");
    assert!(yielded.contains(&tx0_hash));
    assert!(yielded.contains(&tx1_hash));
}

#[test]
fn best_transactions_live_gapped_unblock_higher_fee_not_promoted() {
    // Scenario: tx at nonce=1 is queued (gap). A new tx arrives at nonce=0 that fills the
    // gap but has higher priority than the last yielded tx. The gap-filler should be stashed
    // (not added to `independent`) so neither nonce=0 nor nonce=1 gets yielded.
    let mut pool = AA2dPool::default();

    let sender_low = address(0x64);
    let sender_gapped = address(0x65);

    // Add a low-priority tx from sender_low so the iterator has something to yield first.
    // max_fee must exceed the T1 base fee (20 gwei) so that effective_tip > 0.
    let tx_low = TxBuilder::aa(sender_low)
        .nonce_key(U256::zero())
        .max_priority_fee(1_000_000_000)
        .max_fee(30_000_000_000)
        .build();
    add(&mut pool, tx_low, 0).unwrap();

    // Add a gapped tx (nonce=1) for sender_gapped — this will be queued.
    let tx_n1 = TxBuilder::aa(sender_gapped)
        .nonce_key(U256::zero())
        .nonce(1)
        .max_priority_fee(2_000_000_000)
        .max_fee(30_000_000_000)
        .build();
    let tx_n1_hash = *tx_n1.hash();
    add(&mut pool, tx_n1, 0).unwrap();

    // Create iterator and yield the low-priority tx to set `last_priority`.
    let mut best = live(&mut pool);
    let first = best.next();
    assert!(first.is_some(), "should yield the low-priority tx");

    // Now fill the gap with nonce=0 that has HIGHER priority than the already-yielded tx.
    let tx_n0 = TxBuilder::aa(sender_gapped)
        .nonce_key(U256::zero())
        .nonce(0)
        .max_priority_fee(2_000_000_000)
        .max_fee(30_000_000_000)
        .build();
    let tx_n0_hash = *tx_n0.hash();
    add(&mut pool, tx_n0, 0).unwrap();
    relay(&mut pool, &mut best);

    // Neither nonce=0 nor nonce=1 should be yielded because nonce=0's priority is higher
    // than what was already yielded, so it gets stashed rather than added to `independent`.
    let mut remaining = Vec::new();
    while let Some(tx) = best.next() {
        remaining.push(*tx.hash());
    }
    assert!(
        !remaining.contains(&tx_n0_hash),
        "gap-filler with higher fee must not be yielded"
    );
    assert!(
        !remaining.contains(&tx_n1_hash),
        "gapped tx must not be promoted when gap-filler is stashed"
    );
}

#[test]
fn best_transactions_live_expiring_nonce() {
    let mut pool = AA2dPool::default();

    let mut best = live(&mut pool);

    // Add expiring nonce tx while iterator is active
    let sender = address(0x66);
    let tx = TxBuilder::aa(sender).nonce_key(U256::max_value()).nonce(0).build();
    let tx_hash = *tx.hash();
    add(&mut pool, tx, 0).unwrap();
    relay(&mut pool, &mut best);

    let first = best.next();
    assert!(first.is_some(), "should yield the expiring nonce tx");
    assert_eq!(*first.unwrap().hash(), tx_hash);
    assert!(best.next().is_none());
}
