//! Keeping the pool up to date with the chain.
use std::collections::HashSet;
use std::sync::Arc;
use tempo_pool::addresses::SystemAddresses;
use tempo_pool::block_update::{changed_tokens, keep_pooled, plan_pauses, to_revalidate};
use tempo_pool::maintain::{
    valid_before, PendingStalenessTracker, TempoPoolState, DEFAULT_PENDING_STALENESS_INTERVAL,
    EVICTION_BUFFER_SECS,
};
use tempo_pool::maintenance::{MaintenanceAction, MaintenanceReply, PoolMaintenance, Stage};
use tempo_pool::pool_updates::{
    AccountKeychainPoolEvent, FeeManagerPoolEvent, PoolEvent, PoolLog, TempoPoolUpdates,
    Tip20PoolEvent, Tip403PoolEvent,
};
use tempo_pool::primitives::{Address, TxHash, B256, U256};
use tempo_pool::sets::{add_member, to_set, SortedSet};
use tempo_pool::tip20::default_fee_token;
use tempo_pool::transaction::{
    Call, KeychainSignature, TempoPooledTransaction, TempoTransaction, TempoTxEnvelope,
    TransactionOrigin, TxKind, ValidPoolTransaction,
};

/// An address that ends in the bytes of `n`.
fn address(n: u128) -> Address {
    Address { hi: 0, lo: n }
}

/// The word that holds `n`.
fn word(n: u64) -> U256 {
    U256::from_u64(n)
}

/// The hash of some bytes.
fn digest(bytes: &[u8]) -> B256 {
    let hash = alloy_primitives::keccak256(bytes);
    let mut hi = [0u8; 16];
    let mut lo = [0u8; 16];
    hi.copy_from_slice(&hash[..16]);
    lo.copy_from_slice(&hash[16..]);
    B256 { hi: u128::from_be_bytes(hi), lo: u128::from_be_bytes(lo) }
}

/// The hash of some bytes, as a word.
fn slot(bytes: &[u8]) -> U256 {
    let hash = digest(bytes);
    U256 { hi: hash.hi, lo: hash.lo }
}

/// Builds transactions.
struct TxBuilder {
    envelope: TempoTxEnvelope,
}

impl TxBuilder {
    fn aa(sender: Address) -> Self {
        let mut builder = TxBuilder::eip1559(address(0xca11));
        builder.envelope.sender = sender;
        builder.envelope.fee_payer = Some(sender);
        builder.envelope.ty = 0x76;
        builder.envelope.kind = TxKind::Create;
        builder.envelope.aa = Some(TempoTransaction {
            nonce_key: U256::zero(),
            has_subblock_prefix: false,
            calls: vec![Call {
                to: TxKind::Call(address(0xca11)),
                value: U256::zero(),
                input: Vec::new(),
            }],
            access_list: Vec::new(),
            tempo_authorization_list: Vec::new(),
            key_authorization: None,
            valid_before: None,
            valid_after: None,
            keychain_signature: None,
            expiring_nonce_hash: B256::zero(),
        });
        builder
    }

    fn eip1559(to: Address) -> Self {
        TxBuilder {
            envelope: TempoTxEnvelope {
                hash: B256::zero(),
                sender: address(0x5e4d),
                ty: 2,
                chain_id: Some(42431),
                nonce: 0,
                gas_limit: 1_000_000,
                max_fee_per_gas: 20_000_000_000,
                max_priority_fee_per_gas: Some(1_000_000_000),
                max_fee_per_blob_gas: None,
                value: U256::zero(),
                gas_spending: U256::zero(),
                encoded_length: 200,
                is_dynamic_fee: true,
                kind: TxKind::Call(to),
                input: Vec::new(),
                is_system_tx: false,
                is_payment: false,
                fee_token: None,
                fee_payer: Some(address(0x5e4d)),
                fee_payer_balance_slot: word(0xba1),
                nonce_slot: U256::zero(),
                expiring_nonce_seen_slot: word(0x5ee),
                aa: None,
            },
        }
    }

    fn change(mut self, f: impl FnOnce(&mut TempoTxEnvelope)) -> Self {
        f(&mut self.envelope);
        self
    }

    fn change_aa(mut self, f: impl FnOnce(&mut TempoTransaction)) -> Self {
        f(self.envelope.aa.as_mut().unwrap());
        self
    }

    fn nonce(self, nonce: u64) -> Self {
        self.change(|tx| tx.nonce = nonce)
    }

    fn fee_token(self, token: Address) -> Self {
        self.change(|tx| tx.fee_token = Some(token))
    }

    fn valid_before(self, timestamp: u64) -> Self {
        self.change_aa(|aa| aa.valid_before = Some(timestamp))
    }

    fn envelope(mut self) -> TempoTxEnvelope {
        let tx = &mut self.envelope;
        let mut bytes = Vec::new();
        bytes.extend(tx.sender.hi.to_be_bytes());
        bytes.extend(tx.sender.lo.to_be_bytes());
        if let Some(aa) = &tx.aa {
            bytes.extend(aa.nonce_key.hi.to_be_bytes());
            bytes.extend(aa.nonce_key.lo.to_be_bytes());
        }
        tx.nonce_slot = slot(&bytes);
        bytes.extend(tx.nonce.to_be_bytes());
        tx.hash = digest(&bytes);
        // the cost of the gas in the smallest unit of the fee token
        let attodollars = tx.gas_limit as u128 * tx.max_fee_per_gas;
        tx.gas_spending = U256::from_u128(attodollars / 1_000_000_000_000);
        self.envelope
    }

    fn build(self) -> TempoPooledTransaction {
        TempoPooledTransaction::new(self.envelope())
    }
}

fn system_addresses() -> SystemAddresses {
    SystemAddresses {
        tip403_registry: address(0x403c),
        tip_fee_manager: address(0xfeec),
        stablecoin_dex: address(0xdec0),
        nonce: address(0x4e4f),
        account_keychain: address(0xaaaa),
        validator_config: address(0xcccc),
        validator_config_v2: address(0xcccd),
        tip20_factory: address(0x20fc),
        address_registry: address(0xfdc0),
        signature_verifier: address(0x5165),
        tip20_channel_reserve: address(0x20cc),
        receive_policy_guard: address(0xb10c),
    }
}

fn hash(n: u128) -> TxHash {
    B256 { hi: 0xa5a5, lo: n }
}

fn set_of(hashes: &[TxHash]) -> SortedSet<TxHash> {
    to_set(&hashes.to_vec())
}

fn log(address: Address, event: PoolEvent) -> PoolLog {
    PoolLog { address, event: Some(event) }
}

fn shared(transaction: TempoPooledTransaction) -> Arc<ValidPoolTransaction> {
    Arc::new(ValidPoolTransaction {
        transaction,
        propagate: true,
        origin: TransactionOrigin::External,
    })
}

#[test]
fn no_eviction_on_first_snapshot() {
    let mut tracker = PendingStalenessTracker::new(100);
    let tx1 = hash(1);

    // First snapshot should not evict anything (no previous snapshot to compare)
    let stale = tracker.check_and_update(set_of(&[tx1]), 100);
    assert!(stale.is_empty());
    assert!(tracker.previous_pending.contains_key(&tx1));
}

#[test]
fn evicts_transactions_present_in_both_snapshots() {
    let mut tracker = PendingStalenessTracker::new(100);
    let tx_stale = hash(1);
    let tx_new = hash(2);

    // First snapshot at t=0
    tracker.check_and_update(set_of(&[tx_stale]), 0);

    // Second snapshot at t=100: tx_stale still pending, tx_new is new
    let stale = tracker.check_and_update(set_of(&[tx_stale, tx_new]), 100);

    // tx_stale was in both snapshots -> evicted
    assert_eq!(stale.len(), 1);
    assert!(stale.contains(&tx_stale));

    // tx_new should be tracked for the next snapshot
    assert!(tracker.previous_pending.contains_key(&tx_new));
    // tx_stale should NOT be in the snapshot (it was evicted)
    assert!(!tracker.previous_pending.contains_key(&tx_stale));
}

#[test]
fn should_check_returns_false_before_interval_elapsed() {
    let mut tracker = PendingStalenessTracker::new(100);
    let tx = hash(1);

    // First snapshot at t=0
    assert!(tracker.should_check(0));
    tracker.check_and_update(set_of(&[tx]), 0);

    // At t=50 (before interval elapsed) - should_check returns false
    assert!(!tracker.should_check(50));
    assert_eq!(tracker.last_snapshot_time, Some(0));

    // At t=100 (interval elapsed) - should_check returns true
    assert!(tracker.should_check(100));
}

#[test]
fn removes_transactions_no_longer_pending_from_snapshot() {
    let mut tracker = PendingStalenessTracker::new(100);
    let tx1 = hash(1);
    let tx2 = hash(2);

    // First snapshot with both txs at t=0
    tracker.check_and_update(set_of(&[tx1, tx2]), 0);
    assert_eq!(tracker.previous_pending.len(), 2);

    // Second snapshot at t=100: only tx1 still pending
    // tx1 was in both -> stale, tx2 not in current -> removed from tracking
    let stale = tracker.check_and_update(set_of(&[tx1]), 100);
    assert_eq!(stale.len(), 1);
    assert!(stale.contains(&tx1));

    // Neither should be in the snapshot now
    assert!(tracker.previous_pending.is_empty());
}

#[test]
fn track_groups_duplicate_expiries() {
    let mut state = TempoPoolState::default();
    let tx_a = TxBuilder::aa(address(1)).nonce(1).valid_before(1000).build();
    let tx_b = TxBuilder::aa(address(2)).nonce(2).valid_before(1000).build();

    state.track(&tx_a);
    state.track(&tx_b);
    state.track(&tx_a);

    let bucket = state.expiry_map.get(&1000).unwrap();
    assert_eq!(bucket.len(), 2);
    assert!(bucket.contains_key(tx_a.hash()));
    assert!(bucket.contains_key(tx_b.hash()));
    assert_eq!(state.tx_to_expiry.get(tx_a.hash()), Some(&1000));
    assert_eq!(state.tx_to_expiry.get(tx_b.hash()), Some(&1000));
}

#[test]
fn untrack_removes_hash_and_empty_bucket() {
    let mut state = TempoPoolState::default();
    let hash_a = hash(1);
    let hash_b = hash(2);
    let hash_unknown = hash(3);

    // Track two txs at the same valid_before
    insert_tracked_hash(&mut state, hash_a, 1000);
    insert_tracked_hash(&mut state, hash_b, 1000);

    // Mine hash_a and an unknown hash
    state.untrack(&hash_a);
    state.untrack(&hash_unknown);

    // hash_a removed from both maps
    assert!(!state.tx_to_expiry.contains_key(&hash_a));
    let bucket = state.expiry_map.get(&1000).unwrap();
    assert_eq!(bucket.len(), 1);
    assert!(bucket.contains_key(&hash_b));

    // Mine hash_b should remove the expiry_map entry entirely
    state.untrack(&hash_b);
    assert!(!state.tx_to_expiry.contains_key(&hash_b));
    assert!(!state.expiry_map.contains_key(&1000));
}

#[test]
fn untrack_many_removes_hashes_by_expiry_bucket() {
    let mut state = TempoPoolState::default();
    let hash_a = hash(1);
    let hash_b = hash(2);
    let hash_c = hash(3);
    let hash_d = hash(4);
    let hash_unknown = hash(5);

    insert_tracked_hash(&mut state, hash_a, 1000);
    insert_tracked_hash(&mut state, hash_b, 1000);
    insert_tracked_hash(&mut state, hash_c, 1000);
    insert_tracked_hash(&mut state, hash_d, 2000);

    state.untrack_many(&[hash_a, hash_b, hash_unknown, hash_d]);

    assert!(!state.tx_to_expiry.contains_key(&hash_a));
    assert!(!state.tx_to_expiry.contains_key(&hash_b));
    assert!(!state.tx_to_expiry.contains_key(&hash_d));
    assert_eq!(state.tx_to_expiry.get(&hash_c), Some(&1000));

    let bucket = state.expiry_map.get(&1000).unwrap();
    assert_eq!(bucket.len(), 1);
    assert!(bucket.contains_key(&hash_c));
    assert!(!state.expiry_map.contains_key(&2000));
}

#[test]
fn drain_expired_removes_expired_buckets_and_returns_hashes() {
    let mut state = TempoPoolState::default();
    let hash_a = hash(1);
    let hash_b = hash(2);
    let hash_c = hash(3);
    let hash_d = hash(4);

    insert_tracked_hash(&mut state, hash_a, 1000);
    insert_tracked_hash(&mut state, hash_b, 1000);
    insert_tracked_hash(&mut state, hash_c, 2000);
    insert_tracked_hash(&mut state, hash_d, 3000);

    let expired = state.drain_expired(2000);

    assert_hashes_eq(expired, &[hash_a, hash_b, hash_c]);
    assert!(!state.expiry_map.contains_key(&1000));
    assert!(!state.expiry_map.contains_key(&2000));
    assert!(state.expiry_map.get(&3000).unwrap().contains_key(&hash_d));
    assert!(!state.tx_to_expiry.contains_key(&hash_a));
    assert!(!state.tx_to_expiry.contains_key(&hash_b));
    assert!(!state.tx_to_expiry.contains_key(&hash_c));
    assert_eq!(state.tx_to_expiry.get(&hash_d), Some(&3000));
}

fn insert_tracked_hash(state: &mut TempoPoolState, hash: TxHash, expiry: u64) {
    add_member(&mut state.expiry_map, expiry, hash);
    state.tx_to_expiry.insert(hash, expiry);
}

fn assert_hashes_eq(actual: Vec<TxHash>, expected: &[TxHash]) {
    assert_eq!(actual.len(), expected.len());
    let actual: HashSet<TxHash> = actual.into_iter().collect();
    let expected: HashSet<TxHash> = expected.iter().copied().collect();
    assert_eq!(actual, expected);
}

#[test]
fn only_transactions_that_expire_are_tracked() {
    let mut state = TempoPoolState::default();
    let tx = TxBuilder::aa(address(1)).build();
    assert_eq!(valid_before(&tx), None);
    state.track(&tx);
    assert!(state.expiry_map.is_empty());
    assert!(state.tx_to_expiry.is_empty());
}

#[test]
fn account_keychain_events_are_read_by_the_account_keychain_only() {
    let decode = |event| AccountKeychainPoolEvent::decode(&log(address(0xaaaa), event));
    assert_eq!(
        decode(PoolEvent::KeyRevoked { account: address(1), public_key: address(2) }),
        Some(AccountKeychainPoolEvent::KeyRevoked(address(1), address(2)))
    );
    assert_eq!(
        decode(PoolEvent::SpendingLimitUpdated {
            account: address(1),
            public_key: address(2),
            token: address(3),
        }),
        Some(AccountKeychainPoolEvent::SpendingLimitUpdated(address(1), address(2), address(3)))
    );
    assert_eq!(
        decode(PoolEvent::AccessKeySpend {
            account: address(1),
            public_key: address(2),
            token: address(3),
        }),
        Some(AccountKeychainPoolEvent::AccessKeySpend(address(1), address(2), address(3)))
    );
    let witness = B256 { hi: 4, lo: 5 };
    assert_eq!(
        decode(PoolEvent::KeyAuthorizationWitnessBurned { account: address(1), witness }),
        Some(AccountKeychainPoolEvent::KeyAuthorizationWitnessBurned(address(1), witness))
    );
    assert_eq!(decode(PoolEvent::UserTokenSet { user: address(1) }), None);
}

#[test]
fn fee_manager_events_are_read_by_the_fee_manager_only() {
    let decode = |event| FeeManagerPoolEvent::decode(&log(address(0xfeec), event));
    assert_eq!(
        decode(PoolEvent::ValidatorTokenSet { validator: address(1), token: address(2) }),
        Some(FeeManagerPoolEvent::ValidatorTokenSet(address(1), address(2)))
    );
    assert_eq!(
        decode(PoolEvent::UserTokenSet { user: address(1) }),
        Some(FeeManagerPoolEvent::UserTokenSet(address(1)))
    );
    assert_eq!(decode(PoolEvent::TransferPolicyUpdate), None);
}

#[test]
fn tip403_events_are_read_by_the_registry_only() {
    let decode = |event| Tip403PoolEvent::decode(&log(address(0x403c), event));
    assert_eq!(
        decode(PoolEvent::BlacklistUpdated { policy_id: 7, account: address(1), restricted: true }),
        Some(Tip403PoolEvent::BlacklistUpdated(7, address(1), true))
    );
    assert_eq!(
        decode(PoolEvent::WhitelistUpdated { policy_id: 9, account: address(1), allowed: false }),
        Some(Tip403PoolEvent::WhitelistUpdated(9, address(1), false))
    );
    assert_eq!(decode(PoolEvent::QuoteTokenUpdate), None);
}

#[test]
fn tip20_events_are_read_by_tokens_only() {
    let decode = |event| Tip20PoolEvent::decode(&log(default_fee_token(), event));
    assert_eq!(
        decode(PoolEvent::PauseStateUpdate { is_paused: true }),
        Some(Tip20PoolEvent::PauseStateUpdate(true))
    );
    assert_eq!(
        decode(PoolEvent::TransferPolicyUpdate),
        Some(Tip20PoolEvent::TransferPolicyUpdate)
    );
    assert_eq!(decode(PoolEvent::QuoteTokenUpdate), Some(Tip20PoolEvent::QuoteTokenUpdate));
    assert_eq!(
        decode(PoolEvent::Transfer { from: address(1) }),
        Some(Tip20PoolEvent::Transfer(address(1)))
    );
    assert_eq!(decode(PoolEvent::UserTokenSet { user: address(1) }), None);
}

#[test]
fn extracts_access_key_spend_events() {
    let at = system_addresses();
    let user_address = address(1);
    let key_id = address(2);
    let fee_token = address(3);
    let spent_token = address(4);
    let spend = log(
        at.account_keychain,
        PoolEvent::AccessKeySpend { account: user_address, public_key: key_id, token: spent_token },
    );

    let updates = TempoPoolUpdates::from_chain(&vec![spend], &at);

    assert!(
        updates.spending_limit_spends.contains(user_address, key_id, spent_token),
        "Should contain the AccessKeySpend event's (account, key_id, token)"
    );
    assert!(
        !updates.spending_limit_spends.contains(user_address, key_id, fee_token),
        "Should not infer spends from the tx fee token"
    );
    assert_eq!(updates.spending_limit_spends.len(), 1);
}

#[test]
fn extracts_key_authorization_witness_burned_events() {
    let at = system_addresses();
    let account = address(1);
    let witness = B256 { hi: 2, lo: 3 };
    let burned =
        log(at.account_keychain, PoolEvent::KeyAuthorizationWitnessBurned { account, witness });

    let updates = TempoPoolUpdates::from_chain(&vec![burned], &at);

    let witnesses = updates.key_authorization_witness_burns.get(&account).unwrap();
    assert!(witnesses.contains_key(&witness), "Should contain the burned (account, witness)");
    assert!(updates.has_invalidation_events());
    assert!(updates.has_paused_invalidations());
}

#[test]
fn ignores_keychain_transactions_without_access_key_spend_logs() {
    let user_address = address(1);
    let key_id = address(2);
    let tx = TxBuilder::aa(user_address)
        .fee_token(address(3))
        .change_aa(|aa| {
            aa.keychain_signature =
                Some(KeychainSignature { user_address, key_id: Some(key_id) })
        })
        .build();
    assert!(tx.keychain_subject().is_some());
    assert!(updates_of_block_with(&tx).spending_limit_spends.is_empty());
}

/// What a block with one transaction and no logs changes.
fn updates_of_block_with(tx: &TempoPooledTransaction) -> TempoPoolUpdates {
    let mut machine = PoolMaintenance::new(&Vec::new());
    machine.on_chain_event(false, &Vec::new(), &system_addresses(), &[*tx.hash()], 1_000);
    machine.updates
}

#[test]
fn ignores_non_keychain_aa_transactions() {
    let tx = TxBuilder::aa(address(1)).fee_token(address(2)).build();
    assert!(updates_of_block_with(&tx).spending_limit_spends.is_empty());
}

#[test]
fn ignores_eip1559_transactions() {
    let tx = TxBuilder::eip1559(address(1)).build();
    assert!(updates_of_block_with(&tx).spending_limit_spends.is_empty());
}

#[test]
fn has_invalidation_events_includes_spending_limit_spends() {
    let mut updates = TempoPoolUpdates::new();
    assert!(!updates.has_invalidation_events());

    updates.spending_limit_spends.insert(address(1), address(2), Some(address(3)));
    assert!(updates.has_invalidation_events());
}

#[test]
fn extracts_fee_balance_changes_from_tip20_transfer_logs() {
    let at = system_addresses();
    let fee_token = default_fee_token();
    let from = address(1);
    let transfer = log(fee_token, PoolEvent::Transfer { from });

    let updates = TempoPoolUpdates::from_chain(&vec![transfer], &at);

    let accounts = updates.fee_balance_changes.get(&fee_token).unwrap();
    assert_eq!(accounts.len(), 1);
    assert!(accounts.contains_key(&from));
    assert!(updates.has_invalidation_events());
}

#[test]
fn extracts_transfer_policy_updates() {
    let at = system_addresses();
    let fee_token = default_fee_token();
    let logs = vec![log(fee_token, PoolEvent::TransferPolicyUpdate)];
    let updates = TempoPoolUpdates::from_chain(&logs, &at);
    assert!(
        updates.transfer_policy_updates.contains_key(&fee_token),
        "TransferPolicyUpdate should be tracked by token address"
    );
}

#[test]
fn transfer_policy_updates_deduplicates_by_token() {
    let at = system_addresses();
    let fee_token = default_fee_token();
    let logs = vec![
        log(fee_token, PoolEvent::TransferPolicyUpdate),
        log(fee_token, PoolEvent::TransferPolicyUpdate),
    ];
    let updates = TempoPoolUpdates::from_chain(&logs, &at);
    assert_eq!(
        updates.transfer_policy_updates.len(),
        1,
        "duplicate policy updates for the same token should be deduplicated"
    );
}

#[test]
fn validator_token_changes_deduplicates_by_validator() {
    let validator = address(1);
    let token_a = address(2);
    let token_b = address(3);

    let mut updates = TempoPoolUpdates::new();
    updates.validator_token_changes.insert(validator, token_a);
    updates.validator_token_changes.insert(validator, token_b);

    assert_eq!(
        updates.validator_token_changes.len(),
        1,
        "duplicate validator entries must be deduplicated"
    );
    assert_eq!(
        updates.validator_token_changes.get(&validator).copied(),
        Some(token_b),
        "last-write-wins: second token should overwrite the first"
    );
}

#[test]
fn events_count_only_at_their_contract() {
    let at = system_addresses();
    let logs = vec![
        log(address(9), PoolEvent::KeyRevoked { account: address(1), public_key: address(2) }),
        log(at.tip_fee_manager, PoolEvent::KeyRevoked { account: address(1), public_key: address(2) }),
        log(address(9), PoolEvent::Transfer { from: address(1) }),
        PoolLog { address: at.account_keychain, event: None },
    ];
    let updates = TempoPoolUpdates::from_chain(&logs, &at);
    assert!(updates.is_empty());
    assert!(!updates.has_invalidation_events());
    assert!(!updates.has_paused_invalidations());
}

#[test]
fn every_event_lands_in_its_list() {
    let at = system_addresses();
    let token = default_fee_token();
    let logs = vec![
        log(at.account_keychain, PoolEvent::KeyRevoked { account: address(1), public_key: address(2) }),
        log(at.tip_fee_manager, PoolEvent::ValidatorTokenSet { validator: address(3), token }),
        log(at.tip_fee_manager, PoolEvent::UserTokenSet { user: address(4) }),
        log(
            at.tip403_registry,
            PoolEvent::BlacklistUpdated { policy_id: 5, account: address(5), restricted: true },
        ),
        log(
            at.tip403_registry,
            PoolEvent::BlacklistUpdated { policy_id: 5, account: address(6), restricted: false },
        ),
        log(
            at.tip403_registry,
            PoolEvent::WhitelistUpdated { policy_id: 6, account: address(7), allowed: false },
        ),
        log(
            at.tip403_registry,
            PoolEvent::WhitelistUpdated { policy_id: 6, account: address(8), allowed: true },
        ),
        log(token, PoolEvent::PauseStateUpdate { is_paused: true }),
        log(token, PoolEvent::QuoteTokenUpdate),
    ];
    let updates = TempoPoolUpdates::from_chain(&logs, &at);
    assert!(updates.revoked_keys.contains(address(1), address(2)));
    assert_eq!(updates.validator_token_changes.get(&address(3)), Some(&token));
    assert!(updates.user_token_changes.contains_key(&address(4)));
    assert_eq!(updates.blacklist_additions, vec![(5, address(5))]);
    assert_eq!(updates.whitelist_removals, vec![(6, address(7))]);
    assert_eq!(updates.pause_events, vec![(token, true)]);
    assert!(updates.quote_token_updates.contains_key(&token));
    assert!(!updates.is_empty());
}

#[test]
fn a_block_drops_what_was_mined_and_what_expires_soon() {
    let mut state = TempoPoolState::new();
    let mined = TxBuilder::aa(address(1)).valid_before(100).build();
    let soon = TxBuilder::aa(address(2)).valid_before(100 + EVICTION_BUFFER_SECS).build();
    let later = TxBuilder::aa(address(3)).valid_before(101 + EVICTION_BUFFER_SECS).build();
    for tx in [&mined, &soon, &later] {
        state.track(tx);
    }
    let updates = state.on_block(&Vec::new(), &system_addresses(), &[*mined.hash()], 100);
    assert_eq!(updates.expired_txs, vec![*soon.hash()]);
    assert!(!updates.is_empty());
    assert_eq!(state.tx_to_expiry.len(), 1);
    assert!(state.tx_to_expiry.contains_key(later.hash()));
}

#[test]
fn stale_transactions_are_evicted_once_per_interval() {
    let mut state = TempoPoolState::new();
    let interval = DEFAULT_PENDING_STALENESS_INTERVAL;
    assert_eq!(interval, 1800);
    assert!(state.evict_stale(&vec![hash(1), hash(2)], 10).is_empty());
    assert!(state.evict_stale(&vec![hash(1)], 10 + interval - 1).is_empty());
    assert_eq!(state.evict_stale(&vec![hash(2), hash(3)], 10 + interval), vec![hash(2)]);
}

#[test]
fn only_what_is_still_pooled_is_removed() {
    assert_eq!(
        keep_pooled(&vec![hash(1), hash(2), hash(3)], &vec![true, false, true]),
        vec![hash(1), hash(3)]
    );
}

#[test]
fn a_paused_token_takes_its_transactions_out() {
    let token = default_fee_token();
    let other = Address { hi: 0x20C0_0000, lo: 5 };
    let a = shared(TxBuilder::aa(address(1)).fee_token(token).build());
    let b = shared(TxBuilder::aa(address(2)).fee_token(other).build());
    let c = shared(TxBuilder::aa(address(3)).fee_token(token).build());
    let d = shared(TxBuilder::aa(address(4)).build());
    let events = vec![(token, true), (other, false), (token, true)];
    assert_eq!(changed_tokens(&events, true), vec![token, token]);
    assert_eq!(changed_tokens(&events, false), vec![other]);
    let plan = plan_pauses(&events, &vec![a.clone(), b, c.clone(), d]);
    assert_eq!(plan, vec![(token, vec![*a.hash(), *c.hash()])]);
}

#[test]
fn changed_tokens_are_validated_again() {
    let token = default_fee_token();
    let mut resolved = TxBuilder::aa(address(1)).build();
    resolved.set_resolved_fee_token(token);
    let resolved = shared(resolved);
    let unresolved = shared(TxBuilder::aa(address(2)).fee_token(token).build());
    let txs = vec![resolved.clone(), unresolved];
    assert_eq!(to_revalidate(&txs, &to_set(&vec![token])), vec![*resolved.hash()]);
    assert!(to_revalidate(&txs, &to_set(&Vec::new())).is_empty());
}

/// The hashes that an action removes.
fn removed_by(action: MaintenanceAction) -> Vec<TxHash> {
    match action {
        MaintenanceAction::Remove(hashes) => hashes,
        other => panic!("expected a removal, got: {other:?}"),
    }
}

#[test]
fn a_quiet_block_only_updates_nonces_and_liquidity() {
    let mut machine = PoolMaintenance::new(&Vec::new());
    // the first block always looks for stale transactions
    let at = system_addresses();
    let action = machine.on_chain_event(false, &Vec::new(), &at, &[], 1_000);
    assert!(matches!(action, MaintenanceAction::EvictPaused { tip_timestamp: 1_000 }));
    assert!(matches!(machine.resume(MaintenanceReply::Done), MaintenanceAction::UpdateNonces));
    assert!(matches!(machine.resume(MaintenanceReply::Done), MaintenanceAction::UpdateLiquidity));
    assert!(matches!(machine.resume(MaintenanceReply::Done), MaintenanceAction::ListPending));
    let action = machine.resume(MaintenanceReply::Pending(vec![hash(1)]));
    assert!(matches!(action, MaintenanceAction::Finished));
    assert_eq!(machine.stage, Stage::Idle);

    // the next one does not, until the interval has passed
    machine.on_chain_event(false, &Vec::new(), &at, &[], 1_001);
    machine.resume(MaintenanceReply::Done);
    machine.resume(MaintenanceReply::Done);
    assert!(matches!(machine.resume(MaintenanceReply::Done), MaintenanceAction::Finished));

    let later = 1_000 + DEFAULT_PENDING_STALENESS_INTERVAL;
    machine.on_chain_event(false, &Vec::new(), &at, &[], later);
    machine.resume(MaintenanceReply::Done);
    machine.resume(MaintenanceReply::Done);
    assert!(matches!(machine.resume(MaintenanceReply::Done), MaintenanceAction::ListPending));
    let stale = removed_by(machine.resume(MaintenanceReply::Pending(vec![hash(1), hash(2)])));
    assert_eq!(stale, vec![hash(1)]);
    let action = machine.resume(MaintenanceReply::Removed(Vec::new()));
    assert!(matches!(action, MaintenanceAction::Finished));
}

#[test]
fn a_busy_block_goes_through_every_stage() {
    let at = system_addresses();
    let token = default_fee_token();
    let unpaused = Address { hi: 0x20C0_0000, lo: 5 };
    let expired = TxBuilder::aa(address(1)).valid_before(1_000).build();
    let gone = TxBuilder::aa(address(2)).valid_before(1_001).build();
    let mut paused = TxBuilder::aa(address(3)).fee_token(token).valid_before(9_000).build();
    paused.set_resolved_fee_token(token);
    let paused = shared(paused);
    let existing = vec![shared(expired.clone()), shared(gone.clone()), paused.clone()];
    let mut machine = PoolMaintenance::new(&existing);
    machine.on_new_transaction(&TxBuilder::aa(address(4)).valid_before(8_000).build());
    assert_eq!(machine.state.tx_to_expiry.len(), 4);

    let logs = vec![
        log(token, PoolEvent::PauseStateUpdate { is_paused: true }),
        log(unpaused, PoolEvent::PauseStateUpdate { is_paused: false }),
        log(token, PoolEvent::TransferPolicyUpdate),
        log(token, PoolEvent::QuoteTokenUpdate),
        log(at.account_keychain, PoolEvent::KeyRevoked { account: address(1), public_key: address(2) }),
    ];
    let action = machine.on_chain_event(true, &logs, &at, &[], 1_000);
    assert!(matches!(action, MaintenanceAction::RepopulateLiquidity));

    // another block has to wait
    let action = machine.on_chain_event(false, &Vec::new(), &at, &[], 1_001);
    assert!(matches!(action, MaintenanceAction::Unexpected));
    // and so has a reply to another question
    let action = machine.resume(MaintenanceReply::Pending(Vec::new()));
    assert!(matches!(action, MaintenanceAction::Unexpected));
    assert_eq!(machine.stage, Stage::Repopulating);

    let asked = match machine.resume(MaintenanceReply::Done) {
        MaintenanceAction::CheckPooled(hashes) => hashes,
        other => panic!("unexpected: {other:?}"),
    };
    assert_hashes_eq(asked.clone(), &[*expired.hash(), *gone.hash()]);
    let marks = asked.iter().map(|h| h == expired.hash()).collect();
    let removed = removed_by(machine.resume(MaintenanceReply::Pooled(marks)));
    assert_eq!(removed, vec![*expired.hash()]);

    let action = machine.resume(MaintenanceReply::Removed(vec![shared(expired)]));
    assert!(matches!(action, MaintenanceAction::ListTransactions));
    let removed =
        removed_by(machine.resume(MaintenanceReply::Transactions(vec![paused.clone()])));
    assert_eq!(removed, vec![*paused.hash()]);
    assert_eq!(machine.stage, Stage::RemovingPaused(token));
    match machine.resume(MaintenanceReply::Removed(vec![paused.clone()])) {
        MaintenanceAction::Pause { token: found, entries } => {
            assert_eq!(found, token);
            assert_eq!(entries.len(), 1);
            assert_eq!(entries[0].tx.hash(), paused.hash());
            assert_eq!(entries[0].valid_before, Some(9_000));
        }
        other => panic!("unexpected: {other:?}"),
    }
    assert!(!machine.state.tx_to_expiry.contains_key(paused.hash()));

    let action = machine.resume(MaintenanceReply::Done);
    assert!(matches!(action, MaintenanceAction::Unpause(found) if found == unpaused));
    let action = machine.resume(MaintenanceReply::Done);
    assert!(matches!(action, MaintenanceAction::EvictPaused { tip_timestamp: 1_000 }));
    let action = machine.resume(MaintenanceReply::Done);
    assert!(matches!(action, MaintenanceAction::EvictPausedInvalidated));

    for readding in [Stage::ReaddingForPolicy, Stage::ReaddingForQuote] {
        let action = machine.resume(MaintenanceReply::Done);
        assert!(matches!(action, MaintenanceAction::ListTransactions));
        let removed =
            removed_by(machine.resume(MaintenanceReply::Transactions(vec![paused.clone()])));
        assert_eq!(removed, vec![*paused.hash()]);
        let action = machine.resume(MaintenanceReply::Removed(vec![paused.clone()]));
        assert!(matches!(action, MaintenanceAction::Readd(txs) if txs.len() == 1));
        assert_eq!(machine.stage, readding);
    }

    assert!(matches!(machine.resume(MaintenanceReply::Done), MaintenanceAction::UpdateNonces));
    assert!(matches!(machine.resume(MaintenanceReply::Done), MaintenanceAction::UpdateLiquidity));
    assert!(matches!(machine.resume(MaintenanceReply::Done), MaintenanceAction::EvictInvalidated));
    let action = machine.resume(MaintenanceReply::Evicted(Vec::new()));
    assert!(matches!(action, MaintenanceAction::ListPending));
    let action = machine.resume(MaintenanceReply::Pending(Vec::new()));
    assert!(matches!(action, MaintenanceAction::Finished));
    assert_eq!(machine.state.tx_to_expiry.len(), 1);
}

#[test]
fn a_mined_transaction_is_not_reported_as_expired() {
    let mut state = TempoPoolState::new();
    let mined = TxBuilder::aa(address(1)).nonce(1).valid_before(1_000).build();
    let expiring = TxBuilder::aa(address(2)).nonce(2).valid_before(1_003).build();
    let later = TxBuilder::aa(address(3)).nonce(3).valid_before(1_004).build();
    // tracking one again with the same expiry changes nothing
    for tx in [&mined, &expiring, &later, &mined] {
        state.track(tx);
    }

    let updates = state.on_block(&Vec::new(), &system_addresses(), &[*mined.hash()], 1_000);
    assert_eq!(updates.expired_txs, vec![*expiring.hash()]);
    assert!(!state.tx_to_expiry.contains_key(mined.hash()));
    assert_eq!(state.tx_to_expiry.get(later.hash()), Some(&1_004));
    assert_eq!(state.expiry_map.len(), 1);
}

#[test]
fn a_transaction_that_changes_its_expiry_stays_in_its_first_bucket() {
    let mut state = TempoPoolState::new();
    let mut tx = TxBuilder::aa(address(1)).valid_before(2_000).build();
    state.track(&tx);
    tx.set_key_expiry(Some(1_000));
    state.track(&tx);
    assert_eq!(state.tx_to_expiry.get(tx.hash()), Some(&1_000));
    assert!(state.expiry_map.get(&1_000).unwrap().contains_key(tx.hash()));
    assert!(state.expiry_map.get(&2_000).unwrap().contains_key(tx.hash()));
}
