//! What calls of precompiles cost, and how they end.
use crate::abi::{address_word_and_bytes, be_value, selector_of, word_and_bytes, Selector};
use crate::addresses::SystemAddresses;
use crate::hardfork::TempoHardfork;
use crate::precompiles::{
    delegate_call_not_allowed, dispatched, filled, precompile_at, selector_refusal, spec_input_cost, static_call_not_allowed,
    unknown_selector_data,
    DecodeError, Fatal, OutputModel, PrecompileHalt, PrecompileStatus, SelectorSchedule, StorageCtx,
    TempoPrecompile,
};
use crate::primitives::{Address, B256};
use crate::signature_verifier::{
    after_call, after_decoding, after_keychain, after_recovery, answers_with, call_result, decoded_call, finished, keychain_verified,
    recovered, viewed, CallModel, KeyAnswer, KeyLookup, KeychainSignature,
    PrimitiveSignature, SignatureFindings, SignatureType, TempoPrecompileError,
};
use crate::tip20::tip20_prefixed;
use vstd::prelude::*;

verus! {

/// Hardforks follow one another in this order.
pub proof fn law_order_of_hardforks(a: TempoHardfork)
    ensures
        0 <= a.place() <= 11,
        a.place() == 0 <==> a is Genesis,
        a.place() == 1 <==> a is T0,
        a.place() == 2 <==> a is T1,
        a.place() == 3 <==> a is T1A,
        a.place() == 4 <==> a is T1B,
        a.place() == 5 <==> a is T1C,
        a.place() == 6 <==> a is T2,
        a.place() == 7 <==> a is T3,
        a.place() == 8 <==> a is T4,
        a.place() == 9 <==> a is T5,
        a.place() == 10 <==> a is T6,
        a.place() == 11 <==> a is T7,
        a.spec_is_t1() <==> !(a is Genesis) && !(a is T0),
{
}

/// Call data costs six gas for each word of thirty-two bytes that it takes up, the last one counted
/// in full.
pub proof fn law_input_cost(len: int, words: int)
    requires
        0 <= len,
        32 * words - 32 < len <= 32 * words,
    ensures
        6 * words <= usize::MAX ==> spec_input_cost(len) == 6 * words,
        6 * words > usize::MAX ==> spec_input_cost(len) == usize::MAX,
{
    assert((len + 31) / 32 == words);
}

/// What is paid is what the gas that is left goes down by, and what the gas used goes up by.
pub proof fn law_charge(storage: StorageCtx, gas: int)
    requires
        storage.wf(),
        0 <= gas <= storage.gas_remaining,
    ensures
        ({
            let after = storage.charged(gas);
            &&& after.wf()
            &&& after.gas_remaining == storage.gas_remaining - gas
            &&& after.gas_limit - after.gas_remaining == after.spec_gas_used()
            &&& after == (StorageCtx { gas_remaining: after.gas_remaining, ..storage })
        }),
{
}

/// How a call ended, its data and the gas it used are handed on as they are. A refund is told for a
/// call that succeeds from T4 on and for no other. Where state growth is paid for separately, a call
/// that succeeds is told what it used and what is left in reserve; one that does not is told none
/// used and all in reserve.
pub proof fn law_what_is_filled_in(output: OutputModel, storage: StorageCtx)
    requires
        storage.state_gas_used + storage.reservoir <= u64::MAX,
    ensures
        ({
            let told = filled(output, storage);
            let success = output.status == PrecompileStatus::Success;
            let separate = storage.amsterdam_eip8037_enabled;
            &&& told.status == output.status && told.bytes == output.bytes && told.gas_used
                == output.gas_used
            &&& success && storage.spec.place() >= 8 ==> told.gas_refunded == storage.gas_refunded
            &&& !success || storage.spec.place() < 8 ==> told.gas_refunded == output.gas_refunded
            &&& separate && success ==> told.state_gas_used == storage.state_gas_used
                && told.reservoir == storage.reservoir
            &&& separate && !success ==> told.state_gas_used == 0 && told.reservoir
                == storage.reservoir + storage.state_gas_used
            &&& !separate ==> told.state_gas_used == output.state_gas_used && told.reservoir
                == output.reservoir
        }),
{
}

/// The schedule does not admit the selector: it is one of those added with a hardfork that is not
/// active, or one of those dropped with one that is.
pub open spec fn out_of_schedule(
    schedule: SelectorSchedule,
    selector: Selector,
    active: TempoHardfork,
) -> bool {
    ||| schedule.added@.contains(selector) && active.place() < schedule.hardfork.place()
    ||| schedule.dropped@.contains(selector) && active.place() >= schedule.hardfork.place()
}

/// Call data with fewer than four bytes has no selector. A call without one is reverted with no data
/// from T1 on, and halts before. A call with one is refused exactly if a schedule does not admit it.
pub proof fn law_selector_is_refused(
    calldata: Seq<u8>,
    schedules: Seq<SelectorSchedule>,
    storage: StorageCtx,
)
    ensures
        ({
            let refusal = selector_refusal(calldata, schedules, storage);
            &&& calldata.len() < 4 ==> {
                &&& refusal is Some
                &&& refusal->0.bytes.len() == 0
                &&& refusal->0.gas_used == storage.gas_limit - storage.gas_remaining || !storage.wf()
                &&& storage.spec.place() >= 2 ==> refusal->0.status == PrecompileStatus::Revert
                &&& storage.spec.place() < 2 ==> refusal->0.status == PrecompileStatus::Halt(
                    PrecompileHalt::Other("Invalid input: missing function selector"),
                )
            }
            &&& calldata.len() >= 4 ==> (refusal is Some <==> exists|i: int|
                0 <= i < schedules.len() && out_of_schedule(
                    #[trigger] schedules[i],
                    be_value(calldata.take(4)) as u32,
                    storage.spec,
                ))
            &&& calldata.len() >= 4 && refusal is Some ==> {
                &&& refusal->0.status == PrecompileStatus::Revert
                &&& refusal->0.bytes == unknown_selector_data(be_value(calldata.take(4)) as u32)
                &&& refusal->0.reservoir == storage.reservoir
            }
        }),
{
    let selector = be_value(calldata.take(4)) as u32;
    assert forall|i: int| 0 <= i < schedules.len() implies (#[trigger] schedules[i]).gates_out(
        selector,
        storage.spec,
    ) == out_of_schedule(schedules[i], selector, storage.spec) by {}
    if calldata.len() >= 4 {
        if exists|i: int|
            0 <= i < schedules.len() && out_of_schedule(
                #[trigger] schedules[i],
                selector,
                storage.spec,
            ) {
            let i = choose|i: int|
                0 <= i < schedules.len() && out_of_schedule(
                    #[trigger] schedules[i],
                    selector,
                    storage.spec,
                );
            assert(schedules[i].gates_out(selector, storage.spec));
        }
    }
}

/// The data with which an unknown selector is reverted names the selector: behind the four bytes of
/// the error stand those of the selector, padded with zeros to a word.
pub proof fn law_unknown_selector_is_named(selector: Selector)
    ensures
        ({
            let data = unknown_selector_data(selector);
            &&& data.len() == 36
            &&& be_value(data.take(4)) == 0xaa4b_c69a
            &&& data[4] * 0x100_0000 + data[5] * 0x1_0000 + data[6] * 0x100 + data[7] == selector
            &&& forall|i: int| 8 <= i < 36 ==> data[i] == 0
        }),
{
    let data = unknown_selector_data(selector);
    let head = data.take(4);
    assert(head[0] == 0xaa && head[1] == 0x4b && head[2] == 0xc6 && head[3] == 0x9a);
    reveal_with_fuel(be_value, 5);
    assert(head.drop_last().drop_last().drop_last().drop_last().len() == 0);
    assert(data[4] as int == selector / 0x100_0000);
    assert(data[5] as int == selector / 0x1_0000 % 0x100);
    assert(data[6] as int == selector / 0x100 % 0x100);
    assert(data[7] as int == selector % 0x100);
}

/// A call that was handled ends as its handler said, with the gas used so far; one that could not be
/// decoded is reverted, and nothing but an unknown selector is told.
pub proof fn law_dispatch(storage: StorageCtx, handled: Result<OutputModel, DecodeError>)
    requires
        storage.wf(),
    ensures
        ({
            let end = dispatched(storage, handled);
            &&& end.gas_used == storage.gas_limit - storage.gas_remaining
            &&& handled matches Ok(output) ==> end.status == output.status && end.bytes
                == output.bytes
            &&& handled matches Err(_) ==> end.status == PrecompileStatus::Revert
                && end.gas_refunded == 0 && end.state_gas_used == 0 && end.reservoir
                == storage.reservoir
            &&& handled == Err::<OutputModel, DecodeError>(DecodeError::Malformed)
                ==> end.bytes.len() == 0
            &&& handled matches Err(DecodeError::UnknownSelector(selector)) ==> end.bytes
                == unknown_selector_data(selector)
        }),
{
}

/// Each system precompile is found at its own address, from its own hardfork on; at the address of a
/// token its token contract is found; elsewhere nothing is.
pub proof fn law_where_precompiles_are(
    address: Address,
    spec: TempoHardfork,
    at: SystemAddresses,
)
    requires
        at.distinct(),
    ensures
        ({
            let found = precompile_at(address, spec, at);
            &&& tip20_prefixed(address) ==> found == Some(TempoPrecompile::Tip20Token(address))
            &&& address == at.tip20_factory ==> found == Some(TempoPrecompile::Tip20Factory)
            &&& address == at.tip403_registry ==> found == Some(TempoPrecompile::Tip403Registry)
            &&& address == at.tip_fee_manager ==> found == Some(TempoPrecompile::TipFeeManager)
            &&& address == at.stablecoin_dex ==> found == Some(TempoPrecompile::StablecoinDex)
            &&& address == at.nonce ==> found == Some(TempoPrecompile::NonceManager)
            &&& address == at.validator_config ==> found == Some(TempoPrecompile::ValidatorConfig)
            &&& address == at.account_keychain ==> found == Some(TempoPrecompile::AccountKeychain)
            &&& address == at.validator_config_v2 ==> found == Some(
                TempoPrecompile::ValidatorConfigV2,
            )
            &&& address == at.address_registry ==> found == if spec.place() >= 7 {
                Some(TempoPrecompile::AddressRegistry)
            } else {
                None
            }
            &&& address == at.signature_verifier ==> found == if spec.place() >= 7 {
                Some(TempoPrecompile::SignatureVerifier)
            } else {
                None
            }
            &&& address == at.tip20_channel_reserve ==> found == if spec.place() >= 9 {
                Some(TempoPrecompile::Tip20ChannelReserve)
            } else {
                None
            }
            &&& address == at.receive_policy_guard ==> found == if spec.place() >= 10 {
                Some(TempoPrecompile::ReceivePolicyGuard)
            } else {
                None
            }
            &&& found is Some ==> tip20_prefixed(address) || at.all().contains(address)
        }),
{
    let all = at.all();
    assert(all[0] == at.tip403_registry && all[1] == at.tip_fee_manager && all[2]
        == at.stablecoin_dex && all[3] == at.nonce && all[4] == at.account_keychain && all[5]
        == at.validator_config && all[6] == at.validator_config_v2 && all[7] == at.tip20_factory
        && all[8] == at.address_registry && all[9] == at.signature_verifier && all[10]
        == at.tip20_channel_reserve && all[11] == at.receive_policy_guard);
}

/// What verifying a signature costs: three thousand for the curve of accounts, eight thousand for
/// the others.
pub open spec fn costs(ty: SignatureType) -> int {
    if ty is Secp256k1 {
        3000
    } else {
        8000
    }
}

/// A signer is recovered exactly if the signature is well-formed, the gas lasts and the signature
/// verifies; otherwise the first of these that fails is told. The verification is paid for if the
/// gas lasts, whether the signature verifies or not.
pub proof fn law_recovery(storage: StorageCtx, signature: Option<PrimitiveSignature>)
    requires
        storage.wf(),
    ensures
        ({
            let r = recovered(storage, signature);
            let paid = after_recovery(storage, signature);
            &&& signature is None ==> r == Err::<Address, TempoPrecompileError>(
                TempoPrecompileError::InvalidFormat,
            ) && paid == storage
            &&& signature matches Some(sig) ==> {
                let lasts = costs(sig.ty) <= storage.gas_remaining;
                &&& !lasts ==> r == Err::<Address, TempoPrecompileError>(
                    TempoPrecompileError::OutOfGas,
                ) && paid == storage
                &&& lasts && sig.signer is None ==> r == Err::<Address, TempoPrecompileError>(
                    TempoPrecompileError::InvalidSignature,
                )
                &&& lasts && sig.signer is Some ==> r == Ok::<Address, TempoPrecompileError>(
                    sig.signer->0,
                )
                &&& lasts ==> paid.gas_remaining == storage.gas_remaining - costs(sig.ty)
            }
        }),
{
}

/// The keychain signature is well-formed and not of the first version, and its key can be recovered
/// with the gas there is.
pub open spec fn key_recovers(storage: StorageCtx, signature: Option<KeychainSignature>) -> bool {
    &&& signature is Some
    &&& !signature->0.is_legacy
    &&& signature->0.inner is Some
    &&& signature->0.inner->0.signer is Some
    &&& costs(signature->0.inner->0.ty) <= storage.gas_remaining
}

/// A keychain signature verifies exactly if its key can be recovered, it names the account, the gas
/// lasts for the lookup too and the key has the property in question. If its key can be recovered
/// but it names another account, it does not verify, and no lookup is paid for.
pub proof fn law_keychain_verification(
    storage: StorageCtx,
    account: Address,
    signature: Option<KeychainSignature>,
    lookup: KeyLookup,
)
    requires
        storage.wf(),
    ensures
        ({
            let r = keychain_verified(storage, account, signature, lookup);
            let paid = after_keychain(storage, account, signature, lookup);
            let own = signature->0.user_address == account;
            let cost = costs(signature->0.inner->0.ty);
            let lasts = cost + lookup.gas <= storage.gas_remaining;
            &&& r == Ok::<bool, TempoPrecompileError>(true) <==> key_recovers(storage, signature)
                && own && lasts && lookup.fits == KeyAnswer::Known(true)
            &&& r == Ok::<bool, TempoPrecompileError>(false) <==> key_recovers(storage, signature)
                && (!own || (lasts && lookup.fits == KeyAnswer::Known(false)))
            &&& r == Err::<bool, TempoPrecompileError>(TempoPrecompileError::InvalidFormat)
                <==> signature is None || signature->0.is_legacy || signature->0.inner is None
            &&& key_recovers(storage, signature) && !own ==> paid.gas_remaining
                == storage.gas_remaining - cost
            &&& key_recovers(storage, signature) && own && lasts ==> paid.gas_remaining
                == storage.gas_remaining - cost - lookup.gas
            &&& key_recovers(storage, signature) && own && !lasts ==> r == Err::<
                bool,
                TempoPrecompileError,
            >(TempoPrecompileError::OutOfGas)
        }),
{
}

/// Once a signer is recovered, a recovery answers with it, and a verification with whether it is the
/// given one.
pub proof fn law_call_results(
    account: Address,
    findings: SignatureFindings,
    storage: StorageCtx,
    hash: B256,
    bytes: Seq<u8>,
    signer: Address,
)
    requires
        recovered(storage, findings.primitive) == Ok::<Address, TempoPrecompileError>(signer),
    ensures
        call_result(CallModel::Recover(hash, bytes), findings, storage) == Ok::<
            int,
            TempoPrecompileError,
        >(signer.hi * 0x1_0000_0000_0000_0000_0000_0000_0000_0000 + signer.lo),
        call_result(CallModel::Verify(account, hash, bytes), findings, storage) == Ok::<
            int,
            TempoPrecompileError,
        >(
            if signer == account {
                1
            } else {
                0
            },
        ),
{
}

/// A keychain verification answers one or zero with what was found out about its own property, and
/// with the error if that could not be found out.
pub proof fn law_keychain_call_results(
    account: Address,
    findings: SignatureFindings,
    storage: StorageCtx,
    hash: B256,
    bytes: Seq<u8>,
)
    ensures
        ({
            let active = keychain_verified(
                storage,
                account,
                findings.keychain,
                findings.is_active_key,
            );
            let admin = keychain_verified(
                storage,
                account,
                findings.keychain,
                findings.is_admin_key,
            );
            let r = call_result(CallModel::VerifyKeychain(account, hash, bytes), findings, storage);
            let q = call_result(
                CallModel::VerifyKeychainAdmin(account, hash, bytes),
                findings,
                storage,
            );
            &&& active matches Ok(fits) ==> r == Ok::<int, TempoPrecompileError>(
                if fits {
                    1
                } else {
                    0
                },
            )
            &&& active matches Err(err) ==> r == Err::<int, TempoPrecompileError>(err)
            &&& admin matches Ok(fits) ==> q == Ok::<int, TempoPrecompileError>(
                if fits {
                    1
                } else {
                    0
                },
            )
            &&& admin matches Err(err) ==> q == Err::<int, TempoPrecompileError>(err)
        }),
{
}

/// What call data of the signature verifier stands for goes by its selector: a recovery, a
/// verification, or, from T6 on, one of the two keychain verifications.
pub proof fn law_calls_by_selector(calldata: Seq<u8>, storage: StorageCtx)
    requires
        100 <= calldata.len() <= 2212,
        spec_input_cost(calldata.len() as int) <= storage.gas_remaining,
        storage.wf(),
    ensures
        ({
            let call = decoded_call(calldata, storage);
            let data = calldata.skip(4);
            let selector = selector_of(calldata)->0;
            &&& selector == 0x1904_5a25 ==> match word_and_bytes(data) {
                Some((hash, bytes)) => call == Ok::<CallModel, OutputModel>(
                    CallModel::Recover(hash, bytes),
                ),
                None => call is Err,
            }
            &&& selector == 0x1a86_b550 ==> match address_word_and_bytes(data) {
                Some((signer, hash, bytes)) => call == Ok::<CallModel, OutputModel>(
                    CallModel::Verify(signer, hash, bytes),
                ),
                None => call is Err,
            }
            &&& selector == 0x6c0c_731e && storage.spec.place() >= 10
                ==> match address_word_and_bytes(data) {
                Some((account, hash, bytes)) => call == Ok::<CallModel, OutputModel>(
                    CallModel::VerifyKeychain(account, hash, bytes),
                ),
                None => call is Err,
            }
            &&& selector == 0x5f6f_c5b7 && storage.spec.place() >= 10
                ==> match address_word_and_bytes(data) {
                Some((account, hash, bytes)) => call == Ok::<CallModel, OutputModel>(
                    CallModel::VerifyKeychainAdmin(account, hash, bytes),
                ),
                None => call is Err,
            }
            &&& (selector == 0x6c0c_731e || selector == 0x5f6f_c5b7) && storage.spec.place() < 10
                ==> call is Err
            &&& selector != 0x1904_5a25 && selector != 0x1a86_b550 && selector != 0x6c0c_731e
                && selector != 0x5f6f_c5b7 ==> call is Err
            &&& call matches Err(end) ==> end.status == PrecompileStatus::Revert && end.gas_used
                == storage.gas_limit - storage.gas_remaining + spec_input_cost(
                calldata.len() as int,
            )
        }),
{
}

/// Call data that cannot be paid for halts the call; call data that is too long is reverted as
/// malformed, and call data too short for any arguments is never a call.
pub proof fn law_call_data_limits(calldata: Seq<u8>, storage: StorageCtx)
    requires
        storage.wf(),
    ensures
        ({
            let call = decoded_call(calldata, storage);
            let cost = spec_input_cost(calldata.len() as int);
            &&& cost > storage.gas_remaining ==> call is Err && (call->Err_0).status
                == PrecompileStatus::Halt(PrecompileHalt::OutOfGas) && (call->Err_0).gas_used
                == storage.gas_limit - storage.gas_remaining
            &&& cost <= storage.gas_remaining && calldata.len() > 2212 ==> call is Err && (
            call->Err_0).status == PrecompileStatus::Revert && (call->Err_0).bytes == seq![
                0x25u8,
                0x7au8,
                0xa2u8,
                0x3bu8,
            ]
            &&& calldata.len() < 100 ==> call is Err
        }),
{
}

/// A value is handed back with success, a malformed or false signature reverts with its own error,
/// gas that ran out halts the call, and a state that could not be read fails it.
pub proof fn law_how_results_are_told(
    result: Result<Seq<u8>, TempoPrecompileError>,
    storage: StorageCtx,
)
    requires
        storage.wf(),
    ensures
        ({
            let end = finished(storage, viewed(result));
            &&& end is Err <==> result == Err::<Seq<u8>, TempoPrecompileError>(
                TempoPrecompileError::Fatal,
            )
            &&& end matches Ok(output) ==> output.gas_used == storage.gas_limit
                - storage.gas_remaining
            &&& result matches Ok(bytes) ==> (end->Ok_0).status == PrecompileStatus::Success && (
            end->Ok_0).bytes == bytes
            &&& result == Err::<Seq<u8>, TempoPrecompileError>(TempoPrecompileError::OutOfGas) ==> (
            end->Ok_0).status == PrecompileStatus::Halt(PrecompileHalt::OutOfGas) && (
            end->Ok_0).bytes.len() == 0
            &&& result == Err::<Seq<u8>, TempoPrecompileError>(TempoPrecompileError::InvalidFormat)
                ==> (end->Ok_0).status == PrecompileStatus::Revert && (end->Ok_0).bytes == seq![
                0x25u8,
                0x7au8,
                0xa2u8,
                0x3bu8,
            ]
            &&& result == Err::<Seq<u8>, TempoPrecompileError>(
                TempoPrecompileError::InvalidSignature,
            ) ==> (end->Ok_0).status == PrecompileStatus::Revert && (end->Ok_0).bytes == seq![
                0x8bu8,
                0xaau8,
                0x57u8,
                0x9fu8,
            ]
        }),
{
}

/// Decoding a call is paid for if the gas lasts, and so is what the call itself does: a recovery or
/// verification the one signature, a keychain verification the key as well. Nothing else changes.
pub proof fn law_calls_are_paid(
    calldata: Seq<u8>,
    call: CallModel,
    findings: SignatureFindings,
    storage: StorageCtx,
)
    requires
        storage.wf(),
    ensures
        ({
            let cost = spec_input_cost(calldata.len() as int);
            let decoded = after_decoding(calldata, storage);
            let after = after_call(call, findings, storage);
            &&& decoded.gas_remaining == (if cost <= storage.gas_remaining {
                storage.gas_remaining - cost
            } else {
                storage.gas_remaining as int
            })
            &&& decoded == (StorageCtx { gas_remaining: decoded.gas_remaining, ..storage })
            &&& call is Recover || call is Verify ==> after == after_recovery(
                storage,
                findings.primitive,
            )
            &&& call matches CallModel::VerifyKeychain(account, _, _) ==> after == after_keychain(
                storage,
                account,
                findings.keychain,
                findings.is_active_key,
            )
            &&& call matches CallModel::VerifyKeychainAdmin(account, _, _) ==> after
                == after_keychain(storage, account, findings.keychain, findings.is_admin_key)
            &&& after == (StorageCtx { gas_remaining: after.gas_remaining, ..storage })
            &&& after.gas_remaining <= storage.gas_remaining
        }),
{
}

/// The errors of calls that are not allowed are told by their selectors.
pub proof fn law_forbidden_calls_are_told()
    ensures
        be_value(delegate_call_not_allowed()) == 0x0d89_438e,
        be_value(static_call_not_allowed()) == 0xbeab_a5b7,
{
    reveal_with_fuel(be_value, 5);
    assert(delegate_call_not_allowed().drop_last().drop_last().drop_last().drop_last().len() == 0);
    assert(static_call_not_allowed().drop_last().drop_last().drop_last().drop_last().len() == 0);
}

/// A call that is reverted or halts is told the gas used so far and gets its reserve back; nothing is
/// refunded and no state has grown.
pub proof fn law_plain_outputs(storage: StorageCtx, bytes: Seq<u8>, halt: PrecompileHalt)
    requires
        storage.wf(),
    ensures
        ({
            let used = storage.gas_limit - storage.gas_remaining;
            let reverted = storage.reverted(bytes);
            let halted = storage.halted(halt);
            &&& reverted.status == PrecompileStatus::Revert && reverted.bytes == bytes
            &&& halted.status == PrecompileStatus::Halt(halt) && halted.bytes.len() == 0
            &&& reverted.gas_used == used && halted.gas_used == used
            &&& reverted.reservoir == storage.reservoir && halted.reservoir == storage.reservoir
            &&& reverted.gas_refunded == 0 && halted.gas_refunded == 0
            &&& reverted.state_gas_used == 0 && halted.state_gas_used == 0
        }),
{
}

/// The answer to a call of the signature verifier is one word that holds the result, highest byte
/// first; an error is told as such.
pub proof fn law_answers_are_words(
    answer: Result<OutputModel, Fatal>,
    result: Result<int, TempoPrecompileError>,
    storage: StorageCtx,
)
    requires
        storage.wf(),
        answers_with(answer, result, storage),
    ensures
        result matches Ok(n) ==> {
            &&& answer is Ok
            &&& (answer->Ok_0).status == PrecompileStatus::Success
            &&& (answer->Ok_0).bytes.len() == 32
            &&& be_value((answer->Ok_0).bytes) == n
            &&& (answer->Ok_0).gas_used == storage.gas_limit - storage.gas_remaining
        },
        result matches Err(err) ==> answer == finished(
            storage,
            viewed(Err::<Seq<u8>, TempoPrecompileError>(err)),
        ),
{
}

} // verus!
