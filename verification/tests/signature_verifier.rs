//! The precompile that verifies signatures.
use alloy_primitives::{keccak256, Bytes, FixedBytes};
use alloy_sol_types::SolValue;
use tempo_pool::hardfork::TempoHardfork;
use tempo_pool::precompiles::{
    Fatal, PrecompileHalt, PrecompileOutput, PrecompileStatus, StorageCtx,
};
use tempo_pool::primitives::{Address, B256};
use tempo_pool::signature_verifier::{
    KeyAnswer, KeyLookup, KeychainSignature, PrimitiveSignature, SignatureFindings, SignatureType, SignatureVerifier,
    SignatureVerifierCall, TempoPrecompileError, MAX_CALLDATA_LEN, MAX_WEBAUTHN_SIGNATURE_LENGTH,
    P256_VERIFY_GAS, RECOVER, SECP256K1_VERIFY_GAS, VERIFY, VERIFY_KEYCHAIN, VERIFY_KEYCHAIN_ADMIN,
    WEBAUTHN_VERIFY_GAS,
};

fn address(n: u128) -> Address {
    Address { hi: 0x5eed, lo: n }
}

fn storage(spec: TempoHardfork) -> StorageCtx {
    StorageCtx {
        spec,
        gas_limit: 1_000_000,
        gas_remaining: 1_000_000,
        gas_refunded: 0,
        reservoir: 0,
        state_gas_used: 0,
        amsterdam_eip8037_enabled: false,
        is_static: false,
    }
}

fn selector_of(signature: &str) -> u32 {
    let hash = keccak256(signature.as_bytes());
    u32::from_be_bytes([hash[0], hash[1], hash[2], hash[3]])
}

/// The calldata of a function that takes an address, a hash and a signature.
fn calldata(selector: u32, account: Address, hash: [u8; 32], signature: Vec<u8>) -> Vec<u8> {
    let mut bytes = account.hi.to_be_bytes().to_vec();
    bytes.extend(account.lo.to_be_bytes());
    let account = alloy_primitives::Address::from_slice(&bytes);
    let mut data = selector.to_be_bytes().to_vec();
    data.extend((account, FixedBytes::<32>::from(hash), Bytes::from(signature)).abi_encode_params());
    data
}

/// What the keychain tells, at the price of one read of the state.
fn lookup(fits: bool) -> KeyLookup {
    KeyLookup { fits: KeyAnswer::Known(fits), gas: 2_100 }
}

fn nothing_found() -> SignatureFindings {
    SignatureFindings {
        primitive: None,
        keychain: None,
        is_active_key: lookup(false),
        is_admin_key: lookup(false),
    }
}

fn secp256k1(signer: Address) -> PrimitiveSignature {
    PrimitiveSignature { ty: SignatureType::Secp256k1, signer: Some(signer) }
}

fn keychain(account: Address, key: Address) -> KeychainSignature {
    KeychainSignature { user_address: account, is_legacy: false, inner: Some(secp256k1(key)) }
}

/// Runs a call.
fn call(spec: TempoHardfork, data: &[u8], findings: &SignatureFindings) -> PrecompileOutput {
    SignatureVerifier::new(storage(spec)).call(data, |_| *findings).unwrap()
}

/// The `bool` that an output holds.
fn returned(output: &PrecompileOutput) -> bool {
    assert!(output.is_success());
    bool::abi_decode(&output.bytes).unwrap()
}

fn unknown_selector(data: &[u8]) -> Vec<u8> {
    let mut bytes = selector_of("UnknownFunctionSelector(bytes4)").to_be_bytes().to_vec();
    bytes.extend(&data[..4]);
    bytes.extend([0u8; 28]);
    bytes
}

#[test]
fn selectors_are_those_of_the_interface() {
    assert_eq!(RECOVER, selector_of("recover(bytes32,bytes)"));
    assert_eq!(VERIFY, selector_of("verify(address,bytes32,bytes)"));
    assert_eq!(VERIFY_KEYCHAIN, selector_of("verifyKeychain(address,bytes32,bytes)"));
    assert_eq!(VERIFY_KEYCHAIN_ADMIN, selector_of("verifyKeychainAdmin(address,bytes32,bytes)"));
}

#[test]
fn initialize_sets_the_marker_code() {
    let mut verifier = SignatureVerifier::new(storage(TempoHardfork::T3));
    assert!(verifier.code.is_empty());
    assert!(verifier.initialize().is_ok());
    assert_eq!(verifier.code, vec![0xef]);
}

#[test]
fn test_verify_secp256k1_valid() {
    let mut verifier = SignatureVerifier::new(storage(TempoHardfork::T3));
    let signer = address(1);
    assert_eq!(verifier.recover(Some(secp256k1(signer))), Ok(signer));
    assert_eq!(verifier.storage.gas_used(), SECP256K1_VERIFY_GAS);
}

#[test]
fn test_verify_p256_valid() {
    let mut verifier = SignatureVerifier::new(storage(TempoHardfork::T3));
    let signer = address(2);
    let signature = PrimitiveSignature { ty: SignatureType::P256, signer: Some(signer) };
    assert_eq!(verifier.recover(Some(signature)), Ok(signer));
    assert_eq!(verifier.storage.gas_used(), P256_VERIFY_GAS);
}

#[test]
fn a_webauthn_signature_costs_more() {
    let mut verifier = SignatureVerifier::new(storage(TempoHardfork::T3));
    let signature = PrimitiveSignature { ty: SignatureType::WebAuthn, signer: Some(address(3)) };
    assert_eq!(verifier.recover(Some(signature)), Ok(address(3)));
    assert_eq!(verifier.storage.gas_used(), WEBAUTHN_VERIFY_GAS);
    assert_eq!(WEBAUTHN_VERIFY_GAS, 8_000);
}

#[test]
fn test_verify_empty_signature_reverts() {
    let mut verifier = SignatureVerifier::new(storage(TempoHardfork::T3));
    assert_eq!(verifier.recover(None), Err(TempoPrecompileError::InvalidFormat));
    assert_eq!(verifier.storage.gas_used(), 0);
}

#[test]
fn test_verify_invalid_secp256k1_signature_reverts() {
    let mut verifier = SignatureVerifier::new(storage(TempoHardfork::T3));
    let signature = PrimitiveSignature { ty: SignatureType::Secp256k1, signer: None };
    assert_eq!(verifier.recover(Some(signature)), Err(TempoPrecompileError::InvalidSignature));
    assert_eq!(verifier.storage.gas_used(), SECP256K1_VERIFY_GAS);
}

#[test]
fn verification_that_cannot_be_paid_halts() {
    let mut context = storage(TempoHardfork::T3);
    context.gas_limit = 2_999;
    context.gas_remaining = 2_999;
    let mut verifier = SignatureVerifier::new(context);
    assert_eq!(
        verifier.recover(Some(secp256k1(address(1)))),
        Err(TempoPrecompileError::OutOfGas)
    );

    let data = calldata(VERIFY, address(1), [0xAA; 32], vec![0; 65]);
    let mut verifier = SignatureVerifier::new(context);
    let decoded = verifier.decode_call(&data).unwrap();
    let findings = SignatureFindings { primitive: Some(secp256k1(address(1))), ..nothing_found() };
    let output = verifier.answer_call(&decoded, &findings).unwrap();
    assert_eq!(output.status, PrecompileStatus::Halt(PrecompileHalt::OutOfGas));
}

#[test]
fn test_signature_verifier_selector_coverage() {
    for selector in [VERIFY, VERIFY_KEYCHAIN, VERIFY_KEYCHAIN_ADMIN] {
        let data = calldata(selector, address(1), [0; 32], vec![0; 65]);
        assert!(SignatureVerifier::new(storage(TempoHardfork::T6)).decode_call(&data).is_ok());
    }
    let mut data = RECOVER.to_be_bytes().to_vec();
    data.extend((FixedBytes::<32>::ZERO, Bytes::from(vec![0u8; 65])).abi_encode_params());
    assert!(SignatureVerifier::new(storage(TempoHardfork::T6)).decode_call(&data).is_ok());
}

#[test]
fn decoding_hands_out_the_arguments() {
    let data = calldata(VERIFY, address(7), [0xAB; 32], vec![1, 2, 3, 4, 5]);
    let mut verifier = SignatureVerifier::new(storage(TempoHardfork::T3));
    match verifier.decode_call(&data).unwrap() {
        SignatureVerifierCall::Verify { signer, hash, signature } => {
            assert_eq!(signer, address(7));
            let half = u128::from_be_bytes([0xAB; 16]);
            assert_eq!(hash, B256 { hi: half, lo: half });
            assert_eq!(signature, vec![1, 2, 3, 4, 5]);
        }
        other => panic!("unexpected call: {other:?}"),
    }

    let mut data = RECOVER.to_be_bytes().to_vec();
    let hash = FixedBytes::<32>::with_last_byte(9);
    data.extend((hash, Bytes::from(vec![6u8, 7])).abi_encode_params());
    match verifier.decode_call(&data).unwrap() {
        SignatureVerifierCall::Recover { hash, signature } => {
            assert_eq!(hash, B256 { hi: 0, lo: 9 });
            assert_eq!(signature, vec![6, 7]);
        }
        other => panic!("unexpected call: {other:?}"),
    }
}

#[test]
fn recover_returns_the_signer() {
    let mut data = RECOVER.to_be_bytes().to_vec();
    data.extend((FixedBytes::<32>::ZERO, Bytes::from(vec![0u8; 65])).abi_encode_params());
    let signer = address(0xabcdef);
    let findings = SignatureFindings { primitive: Some(secp256k1(signer)), ..nothing_found() };
    let output = call(TempoHardfork::T3, &data, &findings);
    assert!(output.is_success());
    let mut expected = vec![0u8; 12];
    expected.extend(signer.hi.to_be_bytes());
    expected.extend(signer.lo.to_be_bytes());
    assert_eq!(output.bytes, expected);
    assert_eq!(output.gas_used, 6 * 7 + 3_000);
}

#[test]
fn malformed_arguments_revert_without_data() {
    let mut data = VERIFY.to_be_bytes().to_vec();
    data.extend([0u8; 40]);
    let output = call(TempoHardfork::T3, &data, &nothing_found());
    assert!(output.is_revert());
    assert!(output.bytes.is_empty());
}

#[test]
fn test_verify_keychain_selector_rejected_before_t6() {
    let data = calldata(VERIFY_KEYCHAIN, address(1), [0; 32], vec![0; 65]);
    let output = call(TempoHardfork::T5, &data, &nothing_found());
    assert!(output.is_revert());
    assert_eq!(output.bytes, unknown_selector(&data));
}

#[test]
fn test_verify_keychain_admin_selector_rejected_before_t6() {
    let data = calldata(VERIFY_KEYCHAIN_ADMIN, address(1), [0; 32], vec![0; 65]);
    let output = call(TempoHardfork::T5, &data, &nothing_found());
    assert!(output.is_revert());
    assert_eq!(output.bytes, unknown_selector(&data));
}

#[test]
fn test_verify_returns_true_for_correct_signer() {
    let data = calldata(VERIFY, address(1), [0xAA; 32], vec![0; 65]);
    let findings = SignatureFindings { primitive: Some(secp256k1(address(1))), ..nothing_found() };
    assert!(returned(&call(TempoHardfork::T3, &data, &findings)));
}

#[test]
fn test_verify_returns_false_for_wrong_signer() {
    let data = calldata(VERIFY, address(2), [0xBB; 32], vec![0; 65]);
    let findings = SignatureFindings { primitive: Some(secp256k1(address(1))), ..nothing_found() };
    assert!(!returned(&call(TempoHardfork::T3, &data, &findings)));
}

#[test]
fn test_verify_keychain_returns_true_for_active_key() {
    let account = address(1);
    let data = calldata(VERIFY_KEYCHAIN, account, [0x44; 32], vec![4; 86]);
    let findings = SignatureFindings {
        keychain: Some(keychain(account, address(2))),
        is_active_key: lookup(true),
        ..nothing_found()
    };
    assert!(returned(&call(TempoHardfork::T6, &data, &findings)));
}

#[test]
fn test_verify_keychain_returns_false_for_missing_key() {
    let account = address(1);
    let data = calldata(VERIFY_KEYCHAIN, account, [0x55; 32], vec![4; 86]);
    let findings =
        SignatureFindings { keychain: Some(keychain(account, address(2))), ..nothing_found() };
    assert!(!returned(&call(TempoHardfork::T6, &data, &findings)));
}

#[test]
fn test_verify_keychain_returns_false_for_root_key_without_access_key() {
    let account = address(1);
    let data = calldata(VERIFY_KEYCHAIN, account, [0x56; 32], vec![4; 86]);
    // The root key of an account is an admin key, but no access key unless it is stored as one.
    let findings = SignatureFindings {
        keychain: Some(keychain(account, account)),
        is_admin_key: lookup(true),
        ..nothing_found()
    };
    assert!(!returned(&call(TempoHardfork::T6, &data, &findings)));
}

#[test]
fn test_verify_keychain_returns_false_for_account_mismatch() {
    let data = calldata(VERIFY_KEYCHAIN, address(9), [0x57; 32], vec![4; 86]);
    let findings = SignatureFindings {
        keychain: Some(keychain(address(1), address(2))),
        is_active_key: lookup(true),
        ..nothing_found()
    };
    assert!(!returned(&call(TempoHardfork::T6, &data, &findings)));
}

#[test]
fn test_verify_keychain_admin_returns_true_for_admin_key() {
    let account = address(1);
    let data = calldata(VERIFY_KEYCHAIN_ADMIN, account, [0x66; 32], vec![4; 86]);
    let findings = SignatureFindings {
        keychain: Some(keychain(account, address(3))),
        is_active_key: lookup(true),
        is_admin_key: lookup(true),
        ..nothing_found()
    };
    assert!(returned(&call(TempoHardfork::T6, &data, &findings)));
}

#[test]
fn test_verify_keychain_admin_returns_true_for_root_key() {
    let account = address(1);
    let data = calldata(VERIFY_KEYCHAIN_ADMIN, account, [0x67; 32], vec![4; 86]);
    let findings = SignatureFindings {
        keychain: Some(keychain(account, account)),
        is_admin_key: lookup(true),
        ..nothing_found()
    };
    assert!(returned(&call(TempoHardfork::T6, &data, &findings)));
}

#[test]
fn test_verify_keychain_admin_returns_false_for_account_mismatch() {
    let data = calldata(VERIFY_KEYCHAIN_ADMIN, address(9), [0x68; 32], vec![4; 86]);
    let findings = SignatureFindings {
        keychain: Some(keychain(address(1), address(3))),
        is_admin_key: lookup(true),
        ..nothing_found()
    };
    assert!(!returned(&call(TempoHardfork::T6, &data, &findings)));
}

#[test]
fn test_verify_keychain_admin_returns_false_for_non_admin_key() {
    let account = address(1);
    let data = calldata(VERIFY_KEYCHAIN_ADMIN, account, [0x77; 32], vec![4; 86]);
    let findings = SignatureFindings {
        keychain: Some(keychain(account, address(2))),
        is_active_key: lookup(true),
        ..nothing_found()
    };
    assert!(!returned(&call(TempoHardfork::T6, &data, &findings)));
}

#[test]
fn test_verify_keychain_reverts_for_non_keychain_signature() {
    let data = calldata(VERIFY_KEYCHAIN, address(1), [0x88; 32], vec![0; 65]);
    let findings = SignatureFindings { primitive: Some(secp256k1(address(1))), ..nothing_found() };
    let output = call(TempoHardfork::T6, &data, &findings);
    assert!(output.is_revert());
    assert_eq!(output.bytes, selector_of("InvalidFormat()").to_be_bytes().to_vec());
}

#[test]
fn a_legacy_keychain_signature_is_refused() {
    let data = calldata(VERIFY_KEYCHAIN, address(1), [0x88; 32], vec![3; 86]);
    let mut signature = keychain(address(1), address(2));
    signature.is_legacy = true;
    let findings = SignatureFindings {
        keychain: Some(signature),
        is_active_key: lookup(true),
        ..nothing_found()
    };
    let output = call(TempoHardfork::T6, &data, &findings);
    assert!(output.is_revert());
    assert_eq!(output.bytes, selector_of("InvalidFormat()").to_be_bytes().to_vec());
}

#[test]
fn a_signature_that_recovers_nothing_is_told_apart() {
    let data = calldata(VERIFY, address(1), [0; 32], vec![0; 65]);
    let findings = SignatureFindings {
        primitive: Some(PrimitiveSignature { ty: SignatureType::Secp256k1, signer: None }),
        ..nothing_found()
    };
    let output = call(TempoHardfork::T3, &data, &findings);
    assert!(output.is_revert());
    assert_eq!(output.bytes, selector_of("InvalidSignature()").to_be_bytes().to_vec());
}

#[test]
fn test_oversized_calldata_reverts_with_invalid_format() {
    let output = call(TempoHardfork::T3, &vec![0u8; MAX_CALLDATA_LEN + 1], &nothing_found());
    assert!(output.is_revert());
    assert_eq!(output.bytes, selector_of("InvalidFormat()").to_be_bytes().to_vec());
}

#[test]
fn test_max_webauthn_verify_passes_size_guard() {
    let mut signature = vec![0x02u8];
    signature.extend(vec![0u8; MAX_WEBAUTHN_SIGNATURE_LENGTH]);
    let data = calldata(VERIFY, Address::zero(), [0; 32], signature);
    assert_eq!(data.len(), MAX_CALLDATA_LEN);
    let findings = SignatureFindings {
        primitive: Some(PrimitiveSignature { ty: SignatureType::WebAuthn, signer: None }),
        ..nothing_found()
    };
    // Not rejected by the size guard: it fails later, at signature validation
    let output = call(TempoHardfork::T3, &data, &findings);
    assert_eq!(output.bytes, selector_of("InvalidSignature()").to_be_bytes().to_vec());
}

#[test]
fn test_max_calldata_is_not_rejected() {
    // A zeroed selector is unknown: an UnknownFunctionSelector revert, not InvalidFormat.
    let data = vec![0u8; MAX_CALLDATA_LEN];
    let output = call(TempoHardfork::T3, &data, &nothing_found());
    assert!(output.is_revert());
    assert_eq!(output.bytes, unknown_selector(&data));
}

#[test]
fn the_lookup_of_a_key_is_paid_for() {
    let account = address(1);
    let data = calldata(VERIFY_KEYCHAIN, account, [0x44; 32], vec![4; 86]);
    let found = SignatureFindings {
        keychain: Some(keychain(account, address(2))),
        is_active_key: lookup(true),
        ..nothing_found()
    };
    let mut verifier = SignatureVerifier::new(storage(TempoHardfork::T6));
    let decoded = verifier.decode_call(&data).unwrap();
    let before = verifier.storage.gas_used();
    let output = verifier.answer_call(&decoded, &found).unwrap();
    assert!(returned(&output));
    assert_eq!(output.gas_used, before + SECP256K1_VERIFY_GAS + 2_100);

    // no key is looked up for another account
    let data = calldata(VERIFY_KEYCHAIN, address(9), [0x44; 32], vec![4; 86]);
    let output = call(TempoHardfork::T6, &data, &found);
    assert!(!returned(&output));
    assert_eq!(output.gas_used, before + SECP256K1_VERIFY_GAS);
}

#[test]
fn a_lookup_that_runs_out_of_gas_halts() {
    let account = address(1);
    let data = calldata(VERIFY_KEYCHAIN_ADMIN, account, [0x44; 32], vec![4; 86]);
    for lookup in [
        KeyLookup { fits: KeyAnswer::Known(true), gas: 1_000_000 },
        KeyLookup { fits: KeyAnswer::OutOfGas, gas: 2_100 },
    ] {
        let findings = SignatureFindings {
            keychain: Some(keychain(account, address(2))),
            is_admin_key: lookup,
            ..nothing_found()
        };
        let output = call(TempoHardfork::T6, &data, &findings);
        assert_eq!(output.status, PrecompileStatus::Halt(PrecompileHalt::OutOfGas));
    }
}

#[test]
fn a_lookup_that_cannot_read_the_state_has_no_output() {
    let account = address(1);
    let findings = SignatureFindings {
        keychain: Some(keychain(account, address(2))),
        is_active_key: KeyLookup { fits: KeyAnswer::Fatal, gas: 2_100 },
        ..nothing_found()
    };
    let data = calldata(VERIFY_KEYCHAIN, account, [0x44; 32], vec![4; 86]);
    let mut verifier = SignatureVerifier::new(storage(TempoHardfork::T6));
    assert_eq!(verifier.call(&data, |_| findings), Err(Fatal));

    // the state is not read for another account
    let data = calldata(VERIFY_KEYCHAIN, address(9), [0x44; 32], vec![4; 86]);
    assert!(!returned(&call(TempoHardfork::T6, &data, &findings)));
}

#[test]
fn the_signature_stands_where_its_offset_says() {
    let recover = |words: &[[u8; 32]]| {
        let mut data = RECOVER.to_be_bytes().to_vec();
        data.extend(words.concat());
        SignatureVerifier::new(storage(TempoHardfork::T6)).decode_call(&data)
    };
    let word = |n: u8| {
        let mut word = [0u8; 32];
        word[31] = n;
        word
    };
    let signature_of = |call: SignatureVerifierCall| match call {
        SignatureVerifierCall::Recover { signature, .. } => signature,
        _ => panic!("not a call to recover"),
    };

    // the usual place, one with a gap before it, and the hash read as the length
    let call = recover(&[word(9), word(64), word(3), [7; 32]]).unwrap();
    assert_eq!(signature_of(call), vec![7; 3]);
    let call = recover(&[word(9), word(96), word(0xff), word(4), [8; 32]]).unwrap();
    assert_eq!(signature_of(call), vec![8; 4]);
    let call = recover(&[word(32), word(0), [5; 32]]).unwrap();
    assert_eq!(signature_of(call), word(0).to_vec());
    // bytes up to the very end, without padding
    let call = recover(&[word(9), word(64), word(32), [6; 32]]).unwrap();
    assert_eq!(signature_of(call), vec![6; 32]);

    // one byte too many, a place without a length, a place behind the data, huge numbers
    assert!(recover(&[word(9), word(64), word(33), [6; 32]]).is_err());
    assert!(recover(&[word(9), word(97), word(0), [6; 32]]).is_err());
    assert!(recover(&[word(9), word(200), word(0), [6; 32]]).is_err());
    assert!(recover(&[word(9), [0xff; 32], word(0), [6; 32]]).is_err());
    assert!(recover(&[word(9), word(64), [0xff; 32], [6; 32]]).is_err());
}

#[test]
fn short_arguments_are_malformed_whatever_the_selector() {
    // an unknown selector
    let output = call(TempoHardfork::T6, &[0xaa; 4], &nothing_found());
    assert!(output.is_revert());
    assert!(output.bytes.is_empty());
    let output = call(TempoHardfork::T6, &[0xaa; 99], &nothing_found());
    assert!(output.bytes.is_empty());
    let data = [0xaa; 100];
    assert_eq!(call(TempoHardfork::T6, &data, &nothing_found()).bytes, unknown_selector(&data));

    // a byte string without an own length word
    let mut data = RECOVER.to_be_bytes().to_vec();
    data.extend([0; 64]);
    let output = call(TempoHardfork::T6, &data, &nothing_found());
    assert!(output.is_revert());
    assert!(output.bytes.is_empty());
    data.extend([0; 32]);
    let output = call(TempoHardfork::T6, &data, &nothing_found());
    assert_eq!(output.bytes, selector_of("InvalidFormat()").to_be_bytes().to_vec());
}
