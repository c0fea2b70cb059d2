//! How a precompile runs the handler of a call.
use crate::precompiles::{
    can_fill, check_selector, dispatched, finish_dispatch, output_of, selector_refusal,
    static_call_not_allowed, DecodeError, Fatal, PrecompileOutput, PrecompileStatus,
    SelectorSchedule, StorageCtx,
};
use crate::primitives::Address;
use crate::signature_verifier::{answered, view_result, viewed, TempoPrecompileError};
use vstd::prelude::*;

verus! {

/// What may come out of a handler: the gas that is left and used is in order.
pub open spec fn keeps_gas_in_order<
    T,
    E,
    F: FnOnce(T, StorageCtx) -> (Result<PrecompileOutput, E>, StorageCtx),
>(f: F) -> bool {
    forall|call: T, before: StorageCtx, handled: Result<PrecompileOutput, E>, after: StorageCtx|
        #[trigger]
        f.ensures((call, before), (handled, after)) ==> after.wf() && (handled matches Ok(output)
            ==> can_fill(output@, after))
}

/// How a call ends that was decoded, or could not be: a decoded one is handed to `f` with the
/// context, and if `f` fails, so does the call.
pub open spec fn runs<
    T,
    E,
    F: FnOnce(T, StorageCtx) -> (Result<PrecompileOutput, E>, StorageCtx),
>(
    f: F,
    decoded: Result<T, DecodeError>,
    before: StorageCtx,
    after: StorageCtx,
    r: Result<PrecompileOutput, E>,
) -> bool {
    match decoded {
        Ok(call) => exists|handled: Result<PrecompileOutput, E>| #[trigger]
            f.ensures((call, before), (handled, after)) && match handled {
                Ok(output) => r is Ok && r->Ok_0@ == dispatched(after, Ok(output@)),
                Err(err) => r == Err::<PrecompileOutput, E>(err),
            },
        Err(err) => {
            &&& after == before
            &&& r is Ok
            &&& r->Ok_0@ == dispatched(before, Err(err))
        },
    }
}

/// Applies hardfork selector schedules, decodes the call data with `decode`, then dispatches to
/// `f`.
///
/// Handles missing selectors (a revert from T1 on, a halt before), selectors gated by a hardfork,
/// unknown selectors and malformed arguments. An error of `f` is handed on as it is.
pub fn dispatch_call<T, E, D, F>(
    calldata: &[u8],
    hardforks: &Vec<SelectorSchedule>,
    storage: &mut StorageCtx,
    decode: D,
    f: F,
) -> (r: Result<PrecompileOutput, E>) where
    D: FnOnce(&[u8]) -> Result<T, DecodeError>,
    F: FnOnce(T, StorageCtx) -> (Result<PrecompileOutput, E>, StorageCtx),

    requires
        old(storage).wf(),
        decode.requires((calldata,)),
        forall|call: T| #[trigger] f.requires((call, *old(storage))),
        keeps_gas_in_order(f),
    ensures
        match selector_refusal(calldata@, hardforks@, *old(storage)) {
            Some(output) => r is Ok && r->Ok_0@ == output && *final(storage) == *old(storage),
            None => exists|decoded: Result<T, DecodeError>| #[trigger]
                decode.ensures((calldata,), decoded) && runs(
                    f,
                    decoded,
                    *old(storage),
                    *final(storage),
                    r,
                ),
        },
{
    match check_selector(calldata, hardforks, storage) {
        Ok(_) => {},
        Err(output) => {
            return Ok(output);
        },
    }
    let ghost before = *storage;
    let decoded = decode(calldata);
    match decoded {
        Ok(call) => {
            let (handled, after) = f(call, *storage);
            assert(f.ensures((call, before), (handled, after)));
            *storage = after;
            let r = match handled {
                Ok(output) => Ok(finish_dispatch(storage, Ok(output))),
                Err(err) => Err(err),
            };
            assert(runs(f, decoded, before, after, r));
            r
        },
        Err(err) => {
            let r: Result<PrecompileOutput, E> = Ok(finish_dispatch(storage, Err(err)));
            assert(runs(f, decoded, before, before, r));
            r
        },
    }
}

/// Dispatches a call that changes the state and returns encoded data. Static calls are rejected.
pub fn mutate<T, F: FnOnce(Address, T) -> Result<Vec<u8>, TempoPrecompileError>>(
    storage: &StorageCtx,
    call: T,
    sender: Address,
    f: F,
) -> (r: Result<PrecompileOutput, Fatal>)
    requires
        f.requires((sender, call)),
    ensures
        if storage.is_static {
            r is Ok && r->Ok_0@ == output_of(
                PrecompileStatus::Revert,
                static_call_not_allowed(),
                0,
                storage.reservoir,
            )
        } else {
            exists|result: Result<Vec<u8>, TempoPrecompileError>| #[trigger]
                f.ensures((sender, call), result) && answered(r) == viewed(
                    match result {
                        Ok(bytes) => Ok(bytes@),
                        Err(err) => Err(err),
                    },
                )
        },
{
    match storage.check_mutable() {
        Ok(()) => view_result(f(sender, call)),
        Err(output) => Ok(output),
    }
}

/// Dispatches a call that changes the state and returns no data. Static calls are rejected.
pub fn mutate_void<T, F: FnOnce(Address, T) -> Result<(), TempoPrecompileError>>(
    storage: &StorageCtx,
    call: T,
    sender: Address,
    f: F,
) -> (r: Result<PrecompileOutput, Fatal>)
    requires
        f.requires((sender, call)),
    ensures
        if storage.is_static {
            r is Ok && r->Ok_0@ == output_of(
                PrecompileStatus::Revert,
                static_call_not_allowed(),
                0,
                storage.reservoir,
            )
        } else {
            exists|result: Result<(), TempoPrecompileError>| #[trigger]
                f.ensures((sender, call), result) && answered(r) == viewed(
                    match result {
                        Ok(()) => Ok(Seq::<u8>::empty()),
                        Err(err) => Err(err),
                    },
                )
        },
{
    match storage.check_mutable() {
        Ok(()) => match f(sender, call) {
            Ok(()) => {
                let empty: Vec<u8> = Vec::new();
                assert(empty@ =~= Seq::empty());
                view_result(Ok(empty))
            },
            Err(err) => view_result(Err(err)),
        },
        Err(output) => Ok(output),
    }
}

} // verus!
