//! Gas, gates and addresses of the precompiles.
use alloy_primitives::keccak256;
use tempo_pool::addresses::SystemAddresses;
use tempo_pool::dispatch::{dispatch_call, mutate, mutate_void};
use tempo_pool::hardfork::TempoHardfork;
use tempo_pool::precompiles::{
    charge_input_cost, check_selector, extend_tempo_precompiles, fill_state_gas, finish_dispatch,
    input_cost, is_precompile_address, system_precompiles, tempo_precompiles,
    unknown_selector_output, DecodeError, EthPrecompiles, Fatal, PrecompileHalt, PrecompileInput,
    PrecompileOutput, PrecompileStatus, SelectorSchedule, StorageCtx, TempoPrecompile,
    INPUT_PER_WORD_COST,
};
use tempo_pool::primitives::Address;
use tempo_pool::signature_verifier::TempoPrecompileError;
use tempo_pool::tip20::{default_fee_token, is_tip20_prefix};

fn address(n: u128) -> Address {
    Address { hi: 0, lo: n }
}

fn system_addresses() -> SystemAddresses {
    SystemAddresses {
        tip403_registry: address(0x403c),
        tip_fee_manager: address(0xfeec),
        stablecoin_dex: address(0xdec0),
        nonce: address(0x4e4f),
        account_keychain: address(0xaaaa),
        validator_config: address(0xcccc),
        validator_config_v2: address(0xcccd),
        tip20_factory: address(0x20fc),
        address_registry: address(0xfdc0),
        signature_verifier: address(0x5165),
        tip20_channel_reserve: address(0x20cc),
        receive_policy_guard: address(0xb10c),
    }
}

fn storage(spec: TempoHardfork) -> StorageCtx {
    StorageCtx {
        spec,
        gas_limit: 1_000_000,
        gas_remaining: 1_000_000,
        gas_refunded: 0,
        reservoir: 0,
        state_gas_used: 0,
        amsterdam_eip8037_enabled: false,
        is_static: false,
    }
}

/// The selector of a function or error.
fn selector_of(signature: &str) -> [u8; 4] {
    let hash = keccak256(signature.as_bytes());
    [hash[0], hash[1], hash[2], hash[3]]
}

/// The data of the error that tells of an unknown selector.
fn unknown_selector(selector: [u8; 4]) -> Vec<u8> {
    let mut bytes = selector_of("UnknownFunctionSelector(bytes4)").to_vec();
    bytes.extend(selector);
    bytes.extend([0u8; 28]);
    bytes
}

#[test]
fn test_input_cost_returns_non_zero_for_input() {
    // Empty input should cost 0
    assert_eq!(input_cost(0), 0);

    // 1 byte should cost INPUT_PER_WORD_COST (rounds up to 1 word)
    assert_eq!(input_cost(1), INPUT_PER_WORD_COST);

    // 32 bytes (1 word) should cost INPUT_PER_WORD_COST
    assert_eq!(input_cost(32), INPUT_PER_WORD_COST);

    // 33 bytes (2 words) should cost 2 * INPUT_PER_WORD_COST
    assert_eq!(input_cost(33), INPUT_PER_WORD_COST * 2);
}

#[test]
fn input_cost_counts_words() {
    assert_eq!(INPUT_PER_WORD_COST, 6);
    assert_eq!(input_cost(68), 18);
    assert_eq!(input_cost(2212), 420);
    assert_eq!(input_cost(usize::MAX), (usize::MAX / 32 + 1) as u64 * 6);
}

#[test]
fn test_precompile_delegatecall() {
    let input = PrecompileInput {
        data: Vec::new(),
        caller: Address::zero(),
        gas: 0,
        reservoir: 0,
        is_static: false,
        target_address: address(1),
        bytecode_address: address(2),
    };
    let output = input.enter(TempoHardfork::Genesis, false).unwrap_err();
    assert!(output.is_revert());
    assert_eq!(output.bytes, selector_of("DelegateCallNotAllowed()").to_vec());
}

#[test]
fn a_direct_call_enters_with_its_gas() {
    let input = PrecompileInput {
        data: vec![1, 2, 3],
        caller: address(9),
        gas: 5_000,
        reservoir: 70,
        is_static: true,
        target_address: address(1),
        bytecode_address: address(1),
    };
    let entered = input.enter(TempoHardfork::T4, true).unwrap();
    assert_eq!(entered.gas_limit, 5_000);
    assert_eq!(entered.gas_remaining, 5_000);
    assert_eq!(entered.gas_used(), 0);
    assert_eq!(entered.reservoir, 70);
    assert!(entered.is_static);
    assert!(entered.amsterdam_eip8037_enabled);
    assert_eq!(entered.spec, TempoHardfork::T4);
}

#[test]
fn test_precompile_static_call() {
    // Static calls into mutating functions should fail
    let mut context = storage(TempoHardfork::Genesis);
    context.is_static = true;
    let output = mutate(&context, 7u8, address(1), |_, _| Ok(vec![1])).unwrap();
    assert!(output.is_revert());
    assert_eq!(output.bytes, selector_of("StaticCallNotAllowed()").to_vec());

    // Static calls into mutate void functions should fail
    let output = mutate_void(&context, 7u8, address(1), |_, _| Ok(())).unwrap();
    assert!(output.is_revert());
    assert_eq!(output.bytes, selector_of("StaticCallNotAllowed()").to_vec());

    // Other calls may mutate
    context.is_static = false;
    assert!(context.check_mutable().is_ok());
    let output = mutate(&context, 7u8, address(1), |sender, n| {
        assert_eq!(sender, address(1));
        Ok(vec![n])
    })
    .unwrap();
    assert!(output.is_success());
    assert_eq!(output.bytes, vec![7]);
    let output = mutate_void(&context, 7u8, address(1), |_, _| Ok(())).unwrap();
    assert!(output.is_success());
    assert!(output.bytes.is_empty());
    let output =
        mutate_void(&context, 7u8, address(1), |_, _| Err(TempoPrecompileError::InvalidFormat))
            .unwrap();
    assert!(output.is_revert());
    assert_eq!(output.bytes, selector_of("InvalidFormat()").to_vec());
}

#[test]
fn what_a_handler_spends_is_told() {
    let mut context = storage(TempoHardfork::T1);
    let output = dispatch_call(
        &[1, 2, 3, 4],
        &Vec::new(),
        &mut context,
        |_| Ok(()),
        |_, mut inner| {
            inner.deduct_gas(500).unwrap();
            let output = PrecompileOutput::new(PrecompileStatus::Success, vec![9], 0, 0);
            (Ok::<PrecompileOutput, Fatal>(output), inner)
        },
    )
    .unwrap();
    assert_eq!(output.gas_used, 500);
    assert_eq!(output.bytes, vec![9]);
    assert_eq!(context.gas_remaining, 999_500);
}

#[test]
fn an_error_of_a_handler_is_handed_on() {
    let mut context = storage(TempoHardfork::T1);
    let result = dispatch_call(
        &[1, 2, 3, 4],
        &Vec::new(),
        &mut context,
        |_| Ok(()),
        |_, mut inner| {
            inner.deduct_gas(500).unwrap();
            (Err::<PrecompileOutput, u8>(77), inner)
        },
    );
    assert_eq!(result, Err(77));
    assert_eq!(context.gas_remaining, 999_500);

    // no handler runs for call data without a selector
    let result = dispatch_call(
        &[1, 2, 3],
        &Vec::new(),
        &mut context,
        |_| Ok(()),
        |_, inner| (Err::<PrecompileOutput, u8>(77), inner),
    );
    assert!(result.unwrap().is_revert());

    // a state that cannot be read has no output
    let failed = mutate(&context, 7u8, address(1), |_, _| Err(TempoPrecompileError::Fatal));
    assert_eq!(failed, Err(Fatal));
    let failed = mutate_void(&context, 7u8, address(1), |_, _| Err(TempoPrecompileError::Fatal));
    assert_eq!(failed, Err(Fatal));
}

#[test]
fn the_selector_that_a_decoder_names_is_told() {
    let mut context = storage(TempoHardfork::T2);
    let output = dispatch_call(
        &[1, 2, 3, 4],
        &Vec::new(),
        &mut context,
        |_| Err::<(), DecodeError>(DecodeError::UnknownSelector(0x0506_0708)),
        |_, inner| (Err::<PrecompileOutput, Fatal>(Fatal), inner),
    );
    assert_eq!(output.unwrap().bytes, unknown_selector([5, 6, 7, 8]));
}

#[test]
fn test_early_return_revert_reports_gas_used() {
    let mut context = storage(TempoHardfork::T1);
    assert!(charge_input_cost(&mut context, &[0u8; 68]).is_none());
    let output = context.revert_output(Vec::new());
    assert!(output.is_revert());
    assert_eq!(output.gas_used, 18);
}

#[test]
fn input_that_cannot_be_paid_halts() {
    let mut context = storage(TempoHardfork::T1);
    context.gas_limit = 17;
    context.gas_remaining = 17;
    let output = charge_input_cost(&mut context, &[0u8; 68]).unwrap();
    assert!(output.is_halt());
    assert_eq!(output.status, PrecompileStatus::Halt(PrecompileHalt::OutOfGas));
    assert_eq!(context.gas_remaining, 17);
    assert!(charge_input_cost(&mut context, &[0u8; 64]).is_none());
    assert_eq!(context.gas_remaining, 5);
}

#[test]
fn test_invalid_calldata_hardfork_behavior() {
    let call_with_spec = |calldata: &[u8], spec: TempoHardfork| {
        let mut context = storage(spec);
        assert!(charge_input_cost(&mut context, calldata).is_none());
        // the account of the token is looked up before the call is dispatched
        assert!(context.deduct_gas(2_600).is_ok());
        match check_selector(calldata, &Vec::new(), &context) {
            Ok(selector) => {
                finish_dispatch(&context, Err(DecodeError::UnknownSelector(selector)))
            }
            Err(output) => output,
        }
    };

    // T1: empty calldata (missing selector) should return a reverted output
    let empty = call_with_spec(&[], TempoHardfork::T1);
    assert!(empty.is_revert(), "T1: expected reverted output");
    assert!(empty.bytes.is_empty());
    // Gas was consumed
    assert!(empty.gas_used > 0);

    // T1: unknown selector should return a reverted output with UnknownFunctionSelector error
    let unknown = call_with_spec(&[0xAA; 4], TempoHardfork::T1);
    assert!(unknown.is_revert(), "T1: expected reverted output");

    // Verify it's an UnknownFunctionSelector error with the correct selector
    assert_eq!(unknown.bytes, unknown_selector([0xAA, 0xAA, 0xAA, 0xAA]));

    // Verify gas is tracked for both cases
    assert!(unknown.gas_used >= empty.gas_used);

    // Pre-T1 (T0): invalid calldata should return a halted output
    let output = call_with_spec(&[], TempoHardfork::T0);
    assert!(output.is_halt(), "T0: expected halted output for invalid calldata");
    assert_eq!(
        output.status,
        PrecompileStatus::Halt(PrecompileHalt::Other("Invalid input: missing function selector"))
    );
}

#[test]
fn test_precompile_state_gas_zero_pre_t4() {
    // Pre-T4 (T2): state_gas_used must be 0
    let mut context = storage(TempoHardfork::T2);
    context.state_gas_used = 40;
    context.gas_refunded = 4_800;
    assert!(charge_input_cost(&mut context, &[0u8; 36]).is_none());
    let handled = PrecompileOutput::new(PrecompileStatus::Success, vec![0; 32], 0, 0);
    let result = finish_dispatch(&context, Ok(handled));
    assert!(result.gas_used > 0, "precompile should consume gas");
    assert_eq!(result.state_gas_used, 0);
    assert_eq!(result.gas_refunded, 0);

    // Pre-T4 (T1): reverted call should also have state_gas_used == 0
    let reverted = check_selector(&[], &Vec::new(), &storage(TempoHardfork::T1)).unwrap_err();
    assert!(reverted.is_revert());
    assert_eq!(reverted.state_gas_used, 0);
}

#[test]
fn test_t4_state_gas_only_includes_state_creating_ops() {
    let mut context = storage(TempoHardfork::T4);
    context.amsterdam_eip8037_enabled = true;
    assert!(context.deduct_gas(2_100).is_ok());

    // Nothing was created: no gas for state growth, whatever else was used
    let handled = PrecompileOutput::new(PrecompileStatus::Success, vec![0; 32], 0, 0);
    let output = finish_dispatch(&context, Ok(handled));
    assert!(output.is_success());
    assert_eq!(output.gas_used, 2_100);
    assert_eq!(output.state_gas_used, 0);

    // What was created is told
    context.state_gas_used = 37;
    let handled = PrecompileOutput::new(PrecompileStatus::Success, Vec::new(), 0, 0);
    let output = finish_dispatch(&context, Ok(handled));
    assert_eq!(output.state_gas_used, 37);
}

#[test]
fn test_precompile_gas_refund_in_reservoir_t4() {
    let mut context = storage(TempoHardfork::T4);
    context.amsterdam_eip8037_enabled = true;
    context.gas_refunded = 4_800;
    let mut output = PrecompileOutput::new(PrecompileStatus::Success, Vec::new(), 0, 0);
    fill_state_gas(&mut output, &context);
    assert!(output.is_success());
    assert_eq!(output.gas_refunded, 4_800);

    // Only a call that succeeds is refunded
    let mut output = PrecompileOutput::new(PrecompileStatus::Revert, Vec::new(), 0, 0);
    fill_state_gas(&mut output, &context);
    assert_eq!(output.gas_refunded, 0);
}

#[test]
fn gas_for_state_growth_returns_to_the_reservoir_of_a_failed_call() {
    let mut context = storage(TempoHardfork::T4);
    context.amsterdam_eip8037_enabled = true;
    context.reservoir = 100;
    context.state_gas_used = 60;
    let mut output = PrecompileOutput::new(PrecompileStatus::Revert, Vec::new(), 7, 0);
    fill_state_gas(&mut output, &context);
    assert_eq!(output.reservoir, 160);
    assert_eq!(output.state_gas_used, 0);

    let mut output = PrecompileOutput::new(PrecompileStatus::Success, Vec::new(), 7, 0);
    fill_state_gas(&mut output, &context);
    assert_eq!(output.reservoir, 100);
    assert_eq!(output.state_gas_used, 60);
    assert_eq!(output.gas_used, 7);
}

#[test]
fn large_amounts_of_gas_are_no_obstacle_where_they_are_not_added() {
    let mut context = storage(TempoHardfork::T4);
    context.reservoir = u64::MAX;
    context.state_gas_used = u64::MAX;
    let mut output = PrecompileOutput::new(PrecompileStatus::Revert, Vec::new(), 7, 5);
    fill_state_gas(&mut output, &context);
    assert_eq!(output.reservoir, 5);
    assert_eq!(output.state_gas_used, 0);

    context.amsterdam_eip8037_enabled = true;
    let mut output = PrecompileOutput::new(PrecompileStatus::Success, Vec::new(), 7, 5);
    fill_state_gas(&mut output, &context);
    assert_eq!(output.reservoir, u64::MAX);
    assert_eq!(output.state_gas_used, u64::MAX);
}

#[test]
fn test_dispatch_call_applies_hardfork_selector_gates() {
    let stable = selector_of("stable()");
    let t2_added = selector_of("t2Added(uint256)");
    let t3_removed = selector_of("t3Removed()");

    let call_with_spec = |spec: TempoHardfork, calldata: &[u8]| {
        let schedules = vec![
            SelectorSchedule::new(TempoHardfork::T2).with_added(vec![u32::from_be_bytes(t2_added)]),
            SelectorSchedule::new(TempoHardfork::T3)
                .with_dropped(vec![u32::from_be_bytes(t3_removed)]),
        ];
        dispatch_call(
            calldata,
            &schedules,
            &mut storage(spec),
            |data| {
                let selector = [data[0], data[1], data[2], data[3]];
                if selector == stable {
                    Ok(b"stable".to_vec())
                } else if selector == t2_added {
                    if data.len() >= 36 { Ok(b"added".to_vec()) } else { Err(DecodeError::Malformed) }
                } else if selector == t3_removed {
                    Ok(b"removed".to_vec())
                } else {
                    Err(DecodeError::UnknownSelector(u32::from_be_bytes(selector)))
                }
            },
            |bytes, context| {
                let output = PrecompileOutput::new(PrecompileStatus::Success, bytes, 0, 0);
                (Ok::<PrecompileOutput, Fatal>(output), context)
            },
        )
        .unwrap()
    };

    let mut t2_added_calldata = t2_added.to_vec();
    t2_added_calldata.extend([0u8; 32]);

    // pre-T2: selectors introduced at T2 must still look unknown.
    let pre_t2_added = call_with_spec(TempoHardfork::T1, &t2_added_calldata);
    assert!(pre_t2_added.is_revert());
    assert_eq!(pre_t2_added.bytes, unknown_selector(t2_added));

    // T2+: that selector becomes available and dispatches normally.
    let post_t2_added = call_with_spec(TempoHardfork::T2, &t2_added_calldata);
    assert!(!post_t2_added.is_revert());
    assert_eq!(post_t2_added.bytes, b"added".to_vec());

    // pre-T3: selectors removed at T3 still dispatch normally.
    let pre_t3_removed = call_with_spec(TempoHardfork::T2, &t3_removed);
    assert!(!pre_t3_removed.is_revert());
    assert_eq!(pre_t3_removed.bytes, b"removed".to_vec());

    // T3+: the removed selector must now revert as unknown.
    let post_t3_removed = call_with_spec(TempoHardfork::T3, &t3_removed);
    assert!(post_t3_removed.is_revert());
    assert_eq!(post_t3_removed.bytes, unknown_selector(t3_removed));

    // preT2: gated selectors must be unknown even for selector-only calldata.
    let malformed_added = call_with_spec(TempoHardfork::T1, &t2_added);
    assert!(malformed_added.is_revert());
    assert_eq!(malformed_added.bytes, unknown_selector(t2_added));

    // T2+: selector-only calldata is malformed, which reverts without data.
    let malformed_added = call_with_spec(TempoHardfork::T2, &t2_added);
    assert!(malformed_added.is_revert());
    assert!(malformed_added.bytes.is_empty());

    // A selector that no schedule names dispatches at every hardfork.
    let output = call_with_spec(TempoHardfork::Genesis, &stable);
    assert!(output.is_success());
    assert_eq!(output.bytes, b"stable".to_vec());
}

#[test]
fn an_unknown_selector_is_told_with_padding() {
    let output = unknown_selector_output(&storage(TempoHardfork::T2), 0x0908_0706);
    assert!(output.is_revert());
    assert_eq!(output.bytes.len(), 36);
    assert_eq!(output.bytes, unknown_selector([9, 8, 7, 6]));
}

#[test]
fn test_extend_tempo_precompiles_registers_precompiles() {
    let at = system_addresses();
    let get = |address: &Address| extend_tempo_precompiles(address, TempoHardfork::T3, &at);

    assert_eq!(get(&at.tip20_factory), Some(TempoPrecompile::Tip20Factory));
    assert_eq!(get(&at.tip403_registry), Some(TempoPrecompile::Tip403Registry));
    assert_eq!(get(&at.tip_fee_manager), Some(TempoPrecompile::TipFeeManager));
    assert_eq!(get(&at.stablecoin_dex), Some(TempoPrecompile::StablecoinDex));
    assert_eq!(get(&at.nonce), Some(TempoPrecompile::NonceManager));
    assert_eq!(get(&at.validator_config), Some(TempoPrecompile::ValidatorConfig));
    assert_eq!(get(&at.validator_config_v2), Some(TempoPrecompile::ValidatorConfigV2));
    assert_eq!(get(&at.account_keychain), Some(TempoPrecompile::AccountKeychain));
    assert_eq!(get(&at.signature_verifier), Some(TempoPrecompile::SignatureVerifier));
    assert!(
        get(&at.tip20_channel_reserve).is_none(),
        "TIP20 channel reserve should not be registered before T5"
    );

    // TIP20 tokens with prefix should be registered
    let path_usd = default_fee_token();
    assert_eq!(get(&path_usd), Some(TempoPrecompile::Tip20Token(path_usd)));

    // An address without TIP20 prefix should NOT be registered
    let other = Address { hi: 0x7d5a_11c3, lo: 0x91b2_0453_aa07_99e0_4e11_d3d0_0bb6_6f5d };
    assert!(get(&other).is_none());
}

#[test]
fn test_signature_verifier_not_registered_pre_t3() {
    let at = system_addresses();
    assert!(
        extend_tempo_precompiles(&at.signature_verifier, TempoHardfork::Genesis, &at).is_none(),
        "SignatureVerifier should NOT be registered before T3"
    );
}

#[test]
fn test_channel_reserve_registered_at_t5_only() {
    let at = system_addresses();
    assert!(
        extend_tempo_precompiles(&at.tip20_channel_reserve, TempoHardfork::Genesis, &at).is_none()
    );
    assert!(extend_tempo_precompiles(&at.tip20_channel_reserve, TempoHardfork::T5, &at).is_some());
}

#[test]
fn test_is_precompile_address() {
    let at = system_addresses();
    for (address, activated) in system_precompiles(&at) {
        assert!(is_precompile_address(address, activated, &at));
        assert!(is_precompile_address(address, TempoHardfork::T7, &at));

        if activated != TempoHardfork::Genesis {
            assert!(!is_precompile_address(address, TempoHardfork::Genesis, &at));
        }
    }

    // Assert TIP20 prefixed addresses are classified as precompiles
    let path_usd = default_fee_token();
    assert!(is_tip20_prefix(&path_usd));
    assert!(is_precompile_address(path_usd, TempoHardfork::Genesis, &at));
}

#[test]
fn the_lookup_finds_exactly_the_precompile_addresses() {
    let at = system_addresses();
    for (address, _) in system_precompiles(&at) {
        for spec in [TempoHardfork::Genesis, TempoHardfork::T3, TempoHardfork::T5, TempoHardfork::T6]
        {
            assert_eq!(
                extend_tempo_precompiles(&address, spec, &at).is_some(),
                is_precompile_address(address, spec, &at)
            );
        }
    }
}

#[test]
fn tip20_prefix_is_twelve_bytes() {
    assert!(is_tip20_prefix(&Address { hi: 0x20C0_0000, lo: u64::MAX as u128 }));
    assert!(!is_tip20_prefix(&Address { hi: 0x20C0_0000, lo: u64::MAX as u128 + 1 }));
    assert!(!is_tip20_prefix(&Address { hi: 0x20C0_0001, lo: 0 }));
}

#[test]
fn test_p256verify_availability_across_t1c_boundary() {
    // Pre-T1C hardforks should use Prague precompiles (no P256VERIFY)
    for spec in [
        TempoHardfork::Genesis,
        TempoHardfork::T0,
        TempoHardfork::T1,
        TempoHardfork::T1A,
        TempoHardfork::T1B,
    ] {
        assert_eq!(tempo_precompiles(spec), EthPrecompiles::Prague);
    }

    // T1C+ hardforks should use Osaka precompiles (P256VERIFY available)
    for spec in [TempoHardfork::T1C, TempoHardfork::T2] {
        assert_eq!(tempo_precompiles(spec), EthPrecompiles::Osaka);
    }
}

#[test]
fn each_precompile_is_active_from_its_hardfork_on() {
    let at = system_addresses();
    for (address, activated) in system_precompiles(&at) {
        assert!(is_precompile_address(address, TempoHardfork::T7, &at));
        assert!(is_precompile_address(address, activated, &at));
        assert_eq!(
            is_precompile_address(address, TempoHardfork::Genesis, &at),
            activated == TempoHardfork::Genesis
        );
    }
}
