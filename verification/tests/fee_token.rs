//! Which token pays the fee of a transaction.
use alloy_primitives::keccak256;
use alloy_sol_types::SolValue;
use tempo_pool::abi::{
    is_tip20_fee_inference_call, selector, set_user_token_call, swap_call, DISTRIBUTE_REWARD,
    SET_USER_TOKEN, SWAP_EXACT_AMOUNT_IN, SWAP_EXACT_AMOUNT_OUT, TRANSFER, TRANSFER_WITH_MEMO,
};
use tempo_pool::addresses::SystemAddresses;
use tempo_pool::error::{Currency, TempoInvalidTransaction};
use tempo_pool::fee_token::{
    can_fee_payer_transfer, ensure_tip20_usd, get_fee_token, get_token_balance,
    is_fee_token_paused, is_tip20_usd, is_valid_fee_token, CurrencyError, TempoTxEnv, TokenError,
};
use tempo_pool::hardfork::TempoHardfork;
use tempo_pool::primitives::{Address, U256};
use tempo_pool::state_snapshot::{StateSnapshot, TokenState, Unreadable};
use tempo_pool::tip20::default_fee_token;
use tempo_pool::transaction::{Call, TxKind};

fn address(n: u128) -> Address {
    Address { hi: 0xadd7_e550, lo: n }
}

fn tip20(n: u64) -> Address {
    Address { hi: 0x20C0_0000, lo: n as u128 }
}

fn system_addresses() -> SystemAddresses {
    SystemAddresses {
        tip403_registry: address(0x403c),
        tip_fee_manager: address(0xfeec),
        stablecoin_dex: address(0xdec0),
        nonce: address(0x4e4f),
        account_keychain: address(0xaaaa),
        validator_config: address(0xcccc),
        validator_config_v2: address(0xcccd),
        tip20_factory: address(0x20fc),
        address_registry: address(0xfdc0),
        signature_verifier: address(0x5165),
        tip20_channel_reserve: address(0x20cc),
        receive_policy_guard: address(0xb10c),
    }
}

fn outside(address: Address) -> alloy_primitives::Address {
    let mut bytes = address.hi.to_be_bytes().to_vec();
    bytes.extend(address.lo.to_be_bytes());
    alloy_primitives::Address::from_slice(&bytes)
}

fn selector_of(signature: &str) -> [u8; 4] {
    let hash = keccak256(signature.as_bytes());
    [hash[0], hash[1], hash[2], hash[3]]
}

fn empty_state() -> StateSnapshot {
    StateSnapshot {
        readable: true,
        user_tokens: Vec::new(),
        tokens: Vec::new(),
        allowed: Vec::new(),
        balances: Vec::new(),
    }
}

/// The slot of a short string: its bytes on the left, twice its length on the right.
fn short_string(text: &str) -> U256 {
    let mut bytes = [0u8; 32];
    bytes[..text.len()].copy_from_slice(text.as_bytes());
    bytes[31] = 2 * text.len() as u8;
    let mut hi = [0u8; 16];
    let mut lo = [0u8; 16];
    hi.copy_from_slice(&bytes[..16]);
    lo.copy_from_slice(&bytes[16..]);
    U256 { hi: u128::from_be_bytes(hi), lo: u128::from_be_bytes(lo) }
}

fn token(currency_slot: U256, paused: bool, policy_id: u64) -> TokenState {
    TokenState { currency_slot, paused, policy_id }
}

fn tx(caller: Address, kind: TxKind, data: Vec<u8>) -> TempoTxEnv {
    TempoTxEnv { fee_token: None, caller, kind, data, aa_calls: None }
}

fn aa(caller: Address, calls: Vec<Call>) -> TempoTxEnv {
    TempoTxEnv {
        fee_token: None,
        caller,
        kind: TxKind::Create,
        data: Vec::new(),
        aa_calls: Some(calls),
    }
}

fn call(to: Address, input: Vec<u8>) -> Call {
    Call { to: TxKind::Call(to), value: U256::zero(), input }
}

fn set_user_token(token: Address) -> Vec<u8> {
    let mut data = selector_of("setUserToken(address)").to_vec();
    data.extend(outside(token).abi_encode());
    data
}

fn swap(signature: &str, token_in: Address, token_out: Address, a: u128, b: u128) -> Vec<u8> {
    let mut data = selector_of(signature).to_vec();
    data.extend((outside(token_in), outside(token_out), a, b).abi_encode_params());
    data
}

#[test]
fn test_get_fee_token_fee_token_set() {
    let caller = address(1);
    let fee_token = address(2);
    let mut tx = tx(caller, TxKind::Create, Vec::new());
    tx.fee_token = Some(fee_token);
    let mut state = empty_state();
    let at = system_addresses();
    assert_eq!(
        get_fee_token(&mut state, &tx, caller, TempoHardfork::Genesis, &at),
        Ok(fee_token)
    );
}

#[test]
fn test_get_fee_token_fee_manager() {
    let caller = address(1);
    let token = address(2);
    let at = system_addresses();
    let tx = tx(caller, TxKind::Call(at.tip_fee_manager), set_user_token(token));
    assert_eq!(
        get_fee_token(&mut empty_state(), &tx, caller, TempoHardfork::Genesis, &at),
        Ok(token)
    );
}

#[test]
fn test_get_fee_token_user_token_set() {
    let caller = address(1);
    let user_token = address(2);
    let mut state = empty_state();
    state.user_tokens.push((caller, user_token));
    let tx = tx(Address::zero(), TxKind::Create, Vec::new());
    assert_eq!(
        get_fee_token(&mut state, &tx, caller, TempoHardfork::Genesis, &system_addresses()),
        Ok(user_token)
    );
}

#[test]
fn test_get_fee_token_tip20() {
    let caller = address(1);
    let tip20_token = address(2);
    let tx = tx(caller, TxKind::Call(tip20_token), b"transfer_data".to_vec());
    assert_eq!(
        get_fee_token(
            &mut empty_state(),
            &tx,
            caller,
            TempoHardfork::Genesis,
            &system_addresses()
        ),
        Ok(default_fee_token())
    );
}

#[test]
fn test_get_fee_token_fallback() {
    let caller = address(1);
    let tx = tx(caller, TxKind::Create, Vec::new());
    // Should fallback to the default fee token when no preferences are found
    assert_eq!(
        get_fee_token(
            &mut empty_state(),
            &tx,
            caller,
            TempoHardfork::Genesis,
            &system_addresses()
        ),
        Ok(default_fee_token())
    );
}

#[test]
fn test_get_fee_token_stablecoin_dex() {
    let caller = address(1);
    let at = system_addresses();
    let token_in = default_fee_token();
    let token_out = tip20(1);
    let mut state = empty_state();

    // Test swapExactAmountIn
    let data = swap("swapExactAmountIn(address,address,uint128,uint128)", token_in, token_out, 1000, 900);
    let swap_in = tx(caller, TxKind::Call(at.stablecoin_dex), data);
    assert_eq!(
        get_fee_token(&mut state, &swap_in, caller, TempoHardfork::Genesis, &at),
        Ok(token_in)
    );

    // Test swapExactAmountOut
    let data = swap("swapExactAmountOut(address,address,uint128,uint128)", token_in, token_out, 900, 1000);
    let swap_out = tx(caller, TxKind::Call(at.stablecoin_dex), data);
    assert_eq!(
        get_fee_token(&mut state, &swap_out, caller, TempoHardfork::Genesis, &at),
        Ok(token_in)
    );
}

#[test]
fn a_swapped_token_pays_if_it_is_in_dollars() {
    let caller = address(1);
    let at = system_addresses();
    let token_in = tip20(7);
    let data = swap("swapExactAmountOut(address,address,uint128,uint128)", token_in, tip20(1), 900, 1000);
    let tx = tx(caller, TxKind::Call(at.stablecoin_dex), data.clone());

    let mut state = empty_state();
    state.tokens.push((token_in, token(short_string("USD"), false, 0)));
    assert_eq!(get_fee_token(&mut state, &tx, caller, TempoHardfork::T2, &at), Ok(token_in));

    state.tokens.push((token_in, token(short_string("EUR"), false, 0)));
    assert_eq!(
        get_fee_token(&mut state, &tx, caller, TempoHardfork::T2, &at),
        Ok(default_fee_token())
    );

    // A batch infers nothing from a swap among other calls
    state.tokens.push((token_in, token(short_string("USD"), false, 0)));
    let single = aa(caller, vec![call(at.stablecoin_dex, data.clone())]);
    assert_eq!(get_fee_token(&mut state, &single, caller, TempoHardfork::T2, &at), Ok(token_in));
    let batch = aa(caller, vec![call(at.stablecoin_dex, data.clone()), call(at.stablecoin_dex, data)]);
    assert_eq!(
        get_fee_token(&mut state, &batch, caller, TempoHardfork::T2, &at),
        Ok(default_fee_token())
    );
}

#[test]
fn a_called_token_pays_if_every_call_is_for_it() {
    let caller = address(1);
    let at = system_addresses();
    let paid_in = tip20(5);
    let mut state = empty_state();
    state.tokens.push((paid_in, token(short_string("USD"), false, 0)));
    let transfer = selector_of("transfer(address,uint256)").to_vec();
    let approve = selector_of("approve(address,uint256)").to_vec();

    let batch = aa(caller, vec![call(paid_in, transfer.clone()), call(paid_in, transfer.clone())]);
    assert_eq!(get_fee_token(&mut state, &batch, caller, TempoHardfork::T2, &at), Ok(paid_in));

    let mixed = aa(caller, vec![call(paid_in, transfer.clone()), call(paid_in, approve)]);
    assert_eq!(
        get_fee_token(&mut state, &mixed, caller, TempoHardfork::T2, &at),
        Ok(default_fee_token())
    );

    let other = aa(caller, vec![call(paid_in, transfer.clone()), call(tip20(6), transfer)]);
    assert_eq!(
        get_fee_token(&mut state, &other, caller, TempoHardfork::T2, &at),
        Ok(default_fee_token())
    );

    // A sponsor is not charged in the token that the sender happens to call
    assert_eq!(
        get_fee_token(&mut state, &batch, address(99), TempoHardfork::T2, &at),
        Ok(default_fee_token())
    );
}

#[test]
fn an_unreadable_state_is_told() {
    let mut state = empty_state();
    state.readable = false;
    let tx = tx(address(1), TxKind::Create, Vec::new());
    assert_eq!(
        get_fee_token(&mut state, &tx, address(1), TempoHardfork::T2, &system_addresses()),
        Err(TokenError::State(Unreadable))
    );
    assert_eq!(
        is_fee_token_paused(&mut state, TempoHardfork::T2, tip20(0)),
        Err(TokenError::State(Unreadable))
    );
}

#[test]
fn test_read_token_balance_typed_storage() {
    let token_address = default_fee_token();
    let account = address(1);
    let expected_balance = U256::from_u64(1000);
    let mut state = empty_state();
    state.balances.push((token_address, account, expected_balance));
    assert_eq!(
        get_token_balance(&mut state, token_address, account, TempoHardfork::Genesis),
        Ok(expected_balance)
    );
    assert_eq!(
        get_token_balance(&mut state, token_address, address(2), TempoHardfork::Genesis),
        Ok(U256::zero())
    );
    assert_eq!(
        get_token_balance(&mut state, address(3), account, TempoHardfork::Genesis),
        Err(TokenError::InvalidToken)
    );
}

#[test]
fn test_is_tip20_fee_inference_call() {
    // Allowed selectors
    assert!(is_tip20_fee_inference_call(&selector_of("transfer(address,uint256)")));
    assert!(is_tip20_fee_inference_call(&selector_of("transferWithMemo(address,uint256,bytes32)")));
    assert!(is_tip20_fee_inference_call(&selector_of("distributeReward(uint256)")));

    // Disallowed selectors
    assert!(!is_tip20_fee_inference_call(&selector_of("grantRole(bytes32,address)")));
    assert!(!is_tip20_fee_inference_call(&selector_of("mint(address,uint256)")));
    assert!(!is_tip20_fee_inference_call(&selector_of("approve(address,uint256)")));

    // Edge cases
    assert!(!is_tip20_fee_inference_call(&[]));
    assert!(!is_tip20_fee_inference_call(&[0x00, 0x01, 0x02]));
}

#[test]
fn selectors_are_those_of_the_functions() {
    let all = [
        (TRANSFER, "transfer(address,uint256)"),
        (TRANSFER_WITH_MEMO, "transferWithMemo(address,uint256,bytes32)"),
        (DISTRIBUTE_REWARD, "distributeReward(uint256)"),
        (SET_USER_TOKEN, "setUserToken(address)"),
        (SWAP_EXACT_AMOUNT_IN, "swapExactAmountIn(address,address,uint128,uint128)"),
        (SWAP_EXACT_AMOUNT_OUT, "swapExactAmountOut(address,address,uint128,uint128)"),
    ];
    for (number, signature) in all {
        assert_eq!(number.to_be_bytes(), selector_of(signature));
    }
    assert_eq!(selector(&[0xa9, 0x05, 0x9c, 0xbb, 0x00]), Some(TRANSFER));
    assert_eq!(selector(&[0xa9, 0x05, 0x9c]), None);
}

#[test]
fn calls_are_decoded_strictly() {
    let data = set_user_token(address(5));
    assert_eq!(set_user_token_call(&data), Some(address(5)));
    assert_eq!(set_user_token_call(&data[..35]), None);
    let mut other = data.clone();
    other[0] ^= 1;
    assert_eq!(set_user_token_call(&other), None);

    let data = swap("swapExactAmountIn(address,address,uint128,uint128)", address(8), address(9), 1, 2);
    assert_eq!(swap_call(&data, SWAP_EXACT_AMOUNT_IN), Some(address(8)));
    assert_eq!(swap_call(&data, SWAP_EXACT_AMOUNT_OUT), None);
    assert_eq!(swap_call(&data[..100], SWAP_EXACT_AMOUNT_IN), None);
}

#[test]
fn bytes_without_meaning_are_ignored_in_calls() {
    // the twelve bytes before an address, and what follows the arguments
    let mut data = set_user_token(address(5));
    data[4..16].copy_from_slice(&[0xff; 12]);
    data.extend([1, 2, 3]);
    assert_eq!(set_user_token_call(&data), Some(address(5)));

    let mut data = swap("swapExactAmountIn(address,address,uint128,uint128)", address(8), address(9), 1, 2);
    data[4..16].copy_from_slice(&[0xff; 12]);
    data[68..84].copy_from_slice(&[0xff; 16]);
    assert_eq!(swap_call(&data, SWAP_EXACT_AMOUNT_IN), Some(address(8)));
}

#[test]
fn test_is_fee_token_paused() {
    let token_address = default_fee_token();
    let mut state = empty_state();

    // Default (unpaused) returns false
    assert_eq!(is_fee_token_paused(&mut state, TempoHardfork::Genesis, token_address), Ok(false));

    // Set paused=true
    state.tokens.push((token_address, token(U256::zero(), true, 0)));
    assert_eq!(is_fee_token_paused(&mut state, TempoHardfork::Genesis, token_address), Ok(true));
}

#[test]
fn test_is_tip20_usd() {
    let fee_token = default_fee_token();

    // Short string encoding: left-aligned data + length*2 in LSB
    let cases = [
        // "USD" = 0x555344, len=3, LSB=6 -> true
        (U256 { hi: 0x5553_4400_0000_0000_0000_0000_0000_0000, lo: 6 }, true, "USD"),
        // "EUR" = 0x455552, len=3, LSB=6 -> false (wrong content)
        (U256 { hi: 0x4555_5200_0000_0000_0000_0000_0000_0000, lo: 6 }, false, "EUR"),
        // "US" = 0x5553, len=2, LSB=4 -> false (wrong length)
        (U256 { hi: 0x5553_0000_0000_0000_0000_0000_0000_0000, lo: 4 }, false, "US"),
        // empty -> false
        (U256::zero(), false, "empty"),
    ];

    for (currency_value, expected, label) in cases {
        let mut state = empty_state();
        state.tokens.push((fee_token, token(currency_value, false, 0)));
        let is_usd = is_tip20_usd(&mut state, TempoHardfork::Genesis, fee_token);
        assert_eq!(is_usd, Ok(expected), "currency '{label}' failed");
    }
}

#[test]
fn test_tip20_currency_for_error_does_not_read_long_currency() {
    let fee_token = default_fee_token();
    let mut state = empty_state();
    let len = 1024usize;
    state.tokens.push((fee_token, token(U256::from_u64(len as u64 * 2 + 1), false, 0)));

    let err = ensure_tip20_usd(&mut state, TempoHardfork::Genesis, fee_token).unwrap_err();
    match err {
        CurrencyError::Invalid(TempoInvalidTransaction::FeeTokenNotUsdCurrency {
            address: named,
            currency,
        }) => {
            assert_eq!(named, fee_token);
            assert_eq!(currency, Currency::Oversized(1024));
        }
        other => panic!("unexpected error: {other:?}"),
    }
}

#[test]
fn a_short_currency_is_told() {
    let fee_token = default_fee_token();
    let mut state = empty_state();
    state.tokens.push((fee_token, token(short_string("EUR"), false, 0)));
    match ensure_tip20_usd(&mut state, TempoHardfork::Genesis, fee_token).unwrap_err() {
        CurrencyError::Invalid(TempoInvalidTransaction::FeeTokenNotUsdCurrency { currency, .. }) => {
            assert_eq!(currency, Currency::Code(b"EUR".to_vec()));
        }
        other => panic!("unexpected error: {other:?}"),
    }
    state.tokens.push((fee_token, token(short_string("USD"), false, 0)));
    assert!(ensure_tip20_usd(&mut state, TempoHardfork::Genesis, fee_token).is_ok());
}

#[test]
fn a_valid_fee_token_is_a_token_in_dollars() {
    let mut state = empty_state();
    state.tokens.push((tip20(3), token(short_string("USD"), false, 0)));
    state.tokens.push((address(3), token(short_string("USD"), false, 0)));
    assert_eq!(is_valid_fee_token(&mut state, TempoHardfork::T2, tip20(3)), Ok(true));
    assert_eq!(is_valid_fee_token(&mut state, TempoHardfork::T2, tip20(4)), Ok(false));
    assert_eq!(is_valid_fee_token(&mut state, TempoHardfork::T2, address(3)), Ok(false));
}

#[test]
fn test_can_fee_payer_transfer_t1c() {
    let fee_payer = address(1);
    let path_usd = default_fee_token();
    let at = system_addresses();
    let policy_id = 2;

    // Set up token with whitelist policy
    let mut state = empty_state();
    state.tokens.push((path_usd, token(short_string("USD"), false, policy_id)));
    state.allowed.push((policy_id, fee_payer));

    assert_eq!(
        can_fee_payer_transfer(&mut state, path_usd, fee_payer, TempoHardfork::T1B, &at),
        Ok(true)
    );

    // Post T1C fails if the fee manager is not authorized
    assert_eq!(
        can_fee_payer_transfer(&mut state, path_usd, fee_payer, TempoHardfork::T1C, &at),
        Ok(false)
    );

    // Whitelist FeeManager
    state.allowed.push((policy_id, at.tip_fee_manager));

    assert_eq!(
        can_fee_payer_transfer(&mut state, path_usd, fee_payer, TempoHardfork::T1B, &at),
        Ok(true)
    );
    assert_eq!(
        can_fee_payer_transfer(&mut state, path_usd, fee_payer, TempoHardfork::T1C, &at),
        Ok(true)
    );
}
