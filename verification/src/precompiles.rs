//! What all precompiles share: where they are, what their call data costs, how calls are dispatched
//! by selector, and how gas is accounted for.
use crate::abi::{selector, selector_of, Selector};
use crate::addresses::SystemAddresses;
use crate::hardfork::TempoHardfork;
use crate::primitives::Address;
use crate::tip20::{is_tip20_prefix, tip20_prefixed};
use vstd::prelude::*;

verus! {

/// Input per word cost. It covers decoding and copying of the call data.
pub const INPUT_PER_WORD_COST: u64 = 6;

/// Gas cost for the recovery of a signer from a signature.
pub const ECRECOVER_GAS: u64 = 3_000;

/// The number of words that a number of bytes takes.
pub open spec fn words(len: int) -> int {
    (len + 31) / 32
}

/// The gas cost for decoding call data of a length: so much for each word, as far as it fits.
pub open spec fn spec_input_cost(len: int) -> int {
    if words(len) * INPUT_PER_WORD_COST <= usize::MAX {
        words(len) * INPUT_PER_WORD_COST
    } else {
        usize::MAX as int
    }
}

/// The words that bytes take up are the full ones, and one more if some bytes are left.
proof fn lemma_words(len: int, whole: int, left: int)
    requires
        len == 32 * whole + left,
        0 <= left < 32,
    ensures
        words(len) == (if left == 0 {
            whole
        } else {
            whole + 1
        }),
{
}

/// Returns the gas cost for decoding call data of the given length, rounded up to word boundaries.
#[verifier::spinoff_prover]
pub fn input_cost(calldata_len: usize) -> (r: u64)
    ensures
        r == spec_input_cost(calldata_len as int),
{
    let whole: usize = calldata_len / 32;
    let words: usize = if calldata_len % 32 == 0 {
        whole
    } else {
        whole + 1
    };
    proof {
        lemma_words(calldata_len as int, whole as int, (calldata_len % 32) as int);
    }
    assert(words == self::words(calldata_len as int));
    assert(INPUT_PER_WORD_COST == 6);
    let cost: usize = match words.checked_mul(INPUT_PER_WORD_COST as usize) {
        Some(cost) => cost,
        None => usize::MAX,
    };
    cost as u64
}

/// More call data never costs less.
pub proof fn law_input_cost_is_monotone(a: int, b: int)
    requires
        0 <= a <= b,
    ensures
        spec_input_cost(a) <= spec_input_cost(b),
        spec_input_cost(0) == 0,
        a > 0 ==> spec_input_cost(a) > 0,
{
}

/// Where the state of the chain has its gas at, while a precompile runs.
#[derive(Debug, Clone, Copy, PartialEq, Eq, Structural)]
pub struct StorageCtx {
    /// The active hardfork.
    pub spec: TempoHardfork,
    /// The gas that the call was given.
    pub gas_limit: u64,
    /// The gas that is left.
    pub gas_remaining: u64,
    /// The gas to be refunded.
    pub gas_refunded: i64,
    /// The gas in reserve for state growth.
    pub reservoir: u64,
    /// The gas used for state growth.
    pub state_gas_used: u64,
    /// Whether state growth is paid for separately.
    pub amsterdam_eip8037_enabled: bool,
    /// Whether the call must not change the state.
    pub is_static: bool,
}

/// The gas ran out.
#[derive(Debug, Clone, Copy, PartialEq, Eq, Structural)]
pub struct OutOfGas;

impl StorageCtx {
    /// No more gas is left than there was.
    pub open spec fn wf(self) -> bool {
        self.gas_remaining <= self.gas_limit
    }

    /// The gas used so far.
    pub open spec fn spec_gas_used(self) -> int {
        self.gas_limit - self.gas_remaining
    }

    /// Returns the gas used so far.
    pub fn gas_used(&self) -> (r: u64)
        requires
            self.wf(),
        ensures
            r == self.spec_gas_used(),
    {
        self.gas_limit - self.gas_remaining
    }

    /// The context after gas was spent.
    pub open spec fn charged(self, gas: int) -> StorageCtx {
        StorageCtx { gas_remaining: (self.gas_remaining - gas) as u64, ..self }
    }

    /// Spends gas, if there is enough.
    pub fn deduct_gas(&mut self, gas: u64) -> (r: Result<(), OutOfGas>)
        requires
            old(self).wf(),
        ensures
            final(self).wf(),
            if gas <= old(self).gas_remaining {
                r is Ok && *final(self) == old(self).charged(gas as int)
            } else {
                r is Err && *final(self) == *old(self)
            },
    {
        if gas <= self.gas_remaining {
            self.gas_remaining = self.gas_remaining - gas;
            Ok(())
        } else {
            Err(OutOfGas)
        }
    }
}

/// Why a precompile halts.
#[derive(Debug, Clone, Copy, PartialEq, Eq)]
pub enum PrecompileHalt {
    /// The gas ran out.
    OutOfGas,
    /// Any other reason.
    Other(&'static str),
}

/// How a precompile ended.
#[derive(Debug, Clone, Copy, PartialEq, Eq)]
pub enum PrecompileStatus {
    /// It succeeded.
    Success,
    /// It was reverted.
    Revert,
    /// It halted.
    Halt(PrecompileHalt),
}

/// The state could not be read: the call has no output, and what runs it is aborted.
#[derive(Debug, Clone, Copy, PartialEq, Eq, Structural)]
pub struct Fatal;

/// What a precompile hands back.
#[derive(Debug, Clone, PartialEq, Eq)]
pub struct PrecompileOutput {
    /// How it ended.
    pub status: PrecompileStatus,
    /// The data that it returns or reverts with.
    pub bytes: Vec<u8>,
    /// The gas used.
    pub gas_used: u64,
    /// The gas to be refunded.
    pub gas_refunded: i64,
    /// The gas used for state growth.
    pub state_gas_used: u64,
    /// The gas in reserve for state growth that goes back to the caller.
    pub reservoir: u64,
}

/// What a precompile hands back, as a mathematical value.
#[verifier::ext_equal]
pub struct OutputModel {
    /// How it ended.
    pub status: PrecompileStatus,
    /// The data that it returns or reverts with.
    pub bytes: Seq<u8>,
    /// The gas used.
    pub gas_used: u64,
    /// The gas to be refunded.
    pub gas_refunded: i64,
    /// The gas used for state growth.
    pub state_gas_used: u64,
    /// The gas in reserve for state growth that goes back to the caller.
    pub reservoir: u64,
}

impl View for PrecompileOutput {
    type V = OutputModel;

    open spec fn view(&self) -> OutputModel {
        OutputModel {
            status: self.status,
            bytes: self.bytes@,
            gas_used: self.gas_used,
            gas_refunded: self.gas_refunded,
            state_gas_used: self.state_gas_used,
            reservoir: self.reservoir,
        }
    }
}

/// An output with nothing but how the call ended, data, gas used and reserve.
pub open spec fn output_of(
    status: PrecompileStatus,
    bytes: Seq<u8>,
    gas_used: int,
    reservoir: u64,
) -> OutputModel {
    OutputModel {
        status,
        bytes,
        gas_used: gas_used as u64,
        gas_refunded: 0,
        state_gas_used: 0,
        reservoir,
    }
}

impl PrecompileOutput {
    /// Creates an output with nothing but how the call ended, data, gas used and reserve.
    pub fn new(status: PrecompileStatus, bytes: Vec<u8>, gas_used: u64, reservoir: u64) -> (r: Self)
        ensures
            r@ == output_of(status, bytes@, gas_used as int, reservoir),
    {
        PrecompileOutput {
            status,
            bytes,
            gas_used,
            gas_refunded: 0,
            state_gas_used: 0,
            reservoir,
        }
    }

    /// Returns `true` if the call succeeded.
    pub fn is_success(&self) -> (r: bool)
        ensures
            r == (self@.status is Success),
    {
        matches!(self.status, PrecompileStatus::Success)
    }

    /// Returns `true` if the call was reverted.
    pub fn is_revert(&self) -> (r: bool)
        ensures
            r == (self@.status is Revert),
    {
        matches!(self.status, PrecompileStatus::Revert)
    }

    /// Returns `true` if the call halted.
    pub fn is_halt(&self) -> (r: bool)
        ensures
            r == (self@.status is Halt),
    {
        matches!(self.status, PrecompileStatus::Halt(_))
    }
}

impl StorageCtx {
    /// The output of a call that is reverted with data.
    pub open spec fn reverted(self, bytes: Seq<u8>) -> OutputModel {
        output_of(PrecompileStatus::Revert, bytes, self.spec_gas_used(), self.reservoir)
    }

    /// The output of a call that halts.
    pub open spec fn halted(self, halt: PrecompileHalt) -> OutputModel {
        output_of(
            PrecompileStatus::Halt(halt),
            Seq::empty(),
            self.spec_gas_used(),
            self.reservoir,
        )
    }

    /// Returns the output of a call that is reverted with data, and tells the gas used so far.
    pub fn revert_output(&self, bytes: Vec<u8>) -> (r: PrecompileOutput)
        requires
            self.wf(),
        ensures
            r@ == self.reverted(bytes@),
    {
        PrecompileOutput::new(PrecompileStatus::Revert, bytes, self.gas_used(), self.reservoir)
    }

    /// Returns the output of a call that halts.
    pub fn halt_output(&self, halt: PrecompileHalt) -> (r: PrecompileOutput)
        requires
            self.wf(),
        ensures
            r@ == self.halted(halt),
    {
        let r = PrecompileOutput::new(
            PrecompileStatus::Halt(halt),
            Vec::new(),
            self.gas_used(),
            self.reservoir,
        );
        assert(r@ =~= self.halted(halt));
        r
    }
}

/// Deducts the call data input cost, returning the output of a call that ran out of gas if there is
/// not enough.
pub fn charge_input_cost(storage: &mut StorageCtx, calldata: &[u8]) -> (r: Option<PrecompileOutput>)
    requires
        old(storage).wf(),
    ensures
        final(storage).wf(),
        if spec_input_cost(calldata@.len() as int) <= old(storage).gas_remaining {
            &&& r is None
            &&& *final(storage) == old(storage).charged(spec_input_cost(calldata@.len() as int))
        } else {
            &&& r is Some
            &&& r->0@ == old(storage).halted(PrecompileHalt::OutOfGas)
            &&& *final(storage) == *old(storage)
        },
{
    match storage.deduct_gas(input_cost(calldata.len())) {
        Ok(()) => None,
        Err(_) => Some(storage.halt_output(PrecompileHalt::OutOfGas)),
    }
}

/// The output with the refund and the gas for state growth filled in.
///
/// Refunds are handed on from T4 on. The gas for state growth is told only where it is paid for
/// separately: what a call that succeeds leaves in reserve goes back to the caller, and after one
/// that does not, all of it does, as nothing has grown.
pub open spec fn filled(output: OutputModel, storage: StorageCtx) -> OutputModel {
    let success = output.status is Success;
    let refunded = if storage.spec.place() >= TempoHardfork::T4.place() && success {
        OutputModel { gas_refunded: storage.gas_refunded, ..output }
    } else {
        output
    };
    if !storage.amsterdam_eip8037_enabled {
        refunded
    } else if success {
        OutputModel {
            reservoir: storage.reservoir,
            state_gas_used: storage.state_gas_used,
            ..refunded
        }
    } else {
        OutputModel {
            reservoir: (storage.state_gas_used + storage.reservoir) as u64,
            state_gas_used: 0,
            ..refunded
        }
    }
}

/// The gas for state growth fits in an integer together with its reserve.
pub open spec fn state_gas_fits(storage: StorageCtx) -> bool {
    storage.state_gas_used + storage.reservoir <= u64::MAX
}

/// The gas for state growth fits in an integer where it is added to its reserve: where state growth
/// is paid for separately and the call did not succeed.
pub open spec fn can_fill(output: OutputModel, storage: StorageCtx) -> bool {
    storage.amsterdam_eip8037_enabled && !(output.status is Success) ==> state_gas_fits(storage)
}

/// Fills state gas accounting on an output from the storage context.
pub fn fill_state_gas(output: &mut PrecompileOutput, storage: &StorageCtx)
    requires
        can_fill(old(output)@, *storage),
    ensures
        final(output)@ == filled(old(output)@, *storage),
{
    if storage.spec.includes(TempoHardfork::T4) && output.is_success() {
        output.gas_refunded = storage.gas_refunded;
    }
    if storage.amsterdam_eip8037_enabled {
        if output.is_success() {
            output.reservoir = storage.reservoir;
            output.state_gas_used = storage.state_gas_used;
        } else {
            output.reservoir = storage.state_gas_used + storage.reservoir;
            output.state_gas_used = 0;
        }
    }
    assert(output@ =~= filled(old(output)@, *storage));
}

/// No gas for state growth is lost: what is told as used and what goes back to the caller are
/// together what the context had, whether the call succeeds or not.
pub proof fn law_state_gas_is_kept(output: OutputModel, storage: StorageCtx)
    requires
        can_fill(output, storage),
        storage.amsterdam_eip8037_enabled,
    ensures
        filled(output, storage).reservoir + filled(output, storage).state_gas_used
            == storage.reservoir + storage.state_gas_used,
        !(output.status is Success) ==> filled(output, storage).state_gas_used == 0,
{
}

/// Where state growth is not paid for separately, no call tells any gas for it beyond what its
/// output had; before T4 no call tells a refund either.
pub proof fn law_no_state_gas_unless_enabled(output: OutputModel, storage: StorageCtx)
    requires
        !storage.amsterdam_eip8037_enabled,
    ensures
        filled(output, storage).state_gas_used == output.state_gas_used,
        filled(output, storage).reservoir == output.reservoir,
        storage.spec.place() < TempoHardfork::T4.place() ==> filled(output, storage) == output,
{
}

/// A selector schedule at a given hardfork boundary.
///
/// Before the hardfork activates, selectors in `added` are treated as unknown. After it activates,
/// selectors in `dropped` are treated as unknown.
#[derive(Debug, Clone)]
pub struct SelectorSchedule {
    /// The hardfork.
    pub hardfork: TempoHardfork,
    /// The selectors that are introduced.
    pub added: Vec<Selector>,
    /// The selectors that are removed.
    pub dropped: Vec<Selector>,
}

impl SelectorSchedule {
    /// Creates a new schedule anchored at `hardfork` with no selectors registered yet.
    pub fn new(hardfork: TempoHardfork) -> (r: Self)
        ensures
            r.hardfork == hardfork,
            r.added@.len() == 0,
            r.dropped@.len() == 0,
    {
        SelectorSchedule { hardfork, added: Vec::new(), dropped: Vec::new() }
    }

    /// Registers selectors that are introduced at this hardfork boundary.
    pub fn with_added(self, selectors: Vec<Selector>) -> (r: Self)
        ensures
            r.hardfork == self.hardfork,
            r.added == selectors,
            r.dropped == self.dropped,
    {
        SelectorSchedule { hardfork: self.hardfork, added: selectors, dropped: self.dropped }
    }

    /// Registers selectors that are removed at this hardfork boundary.
    pub fn with_dropped(self, selectors: Vec<Selector>) -> (r: Self)
        ensures
            r.hardfork == self.hardfork,
            r.added == self.added,
            r.dropped == selectors,
    {
        SelectorSchedule { hardfork: self.hardfork, added: self.added, dropped: selectors }
    }

    /// The schedule gates out the selector.
    pub open spec fn gates_out(self, selector: Selector, active: TempoHardfork) -> bool {
        if self.hardfork.place() <= active.place() {
            self.dropped@.contains(selector)
        } else {
            self.added@.contains(selector)
        }
    }

    /// Returns `true` if this schedule gates out `selector` under the `active` hardfork.
    pub fn rejects(&self, selector: Selector, active: TempoHardfork) -> (r: bool)
        ensures
            r == self.gates_out(selector, active),
    {
        if active.includes(self.hardfork) {
            has_selector(&self.dropped, selector)
        } else {
            has_selector(&self.added, selector)
        }
    }
}

fn has_selector(list: &Vec<Selector>, selector: Selector) -> (r: bool)
    ensures
        r == list@.contains(selector),
{
    let mut i: usize = 0;
    while i < list.len()
        invariant
            i <= list@.len(),
            forall|j: int| 0 <= j < i ==> list@[j] != selector,
        decreases list@.len() - i,
    {
        if list[i] == selector {
            return true;
        }
        i = i + 1;
    }
    false
}

/// A selector that is added at a hardfork is unknown before it and known from it on; one that is
/// dropped there is known before it and unknown from it on.
pub proof fn law_selector_gates(
    schedule: SelectorSchedule,
    selector: Selector,
    active: TempoHardfork,
)
    ensures
        schedule.added@.contains(selector) && !schedule.dropped@.contains(selector) ==> (
        schedule.gates_out(selector, active) <==> active.place() < schedule.hardfork.place()),
        schedule.dropped@.contains(selector) && !schedule.added@.contains(selector) ==> (
        schedule.gates_out(selector, active) <==> active.place() >= schedule.hardfork.place()),
        !schedule.added@.contains(selector) && !schedule.dropped@.contains(selector)
            ==> !schedule.gates_out(selector, active),
{
}

/// One of the schedules gates out the selector.
pub open spec fn any_gates_out(
    schedules: Seq<SelectorSchedule>,
    selector: Selector,
    active: TempoHardfork,
) -> bool {
    exists|i: int| 0 <= i < schedules.len() && (#[trigger] schedules[i]).gates_out(selector, active)
}

/// The first four bytes of the data with which an unknown selector is reverted: the selector of
/// `UnknownFunctionSelector(bytes4)`.
pub open spec fn unknown_function_selector() -> Seq<u8> {
    seq![0xaau8, 0x4bu8, 0xc6u8, 0x9au8]
}

/// The four bytes of a selector.
pub open spec fn selector_bytes(selector: Selector) -> Seq<u8> {
    seq![
        (selector / 0x100_0000) as u8,
        (selector / 0x1_0000 % 0x100) as u8,
        (selector / 0x100 % 0x100) as u8,
        (selector % 0x100) as u8,
    ]
}

/// The data with which a call with an unknown selector is reverted: the error and, padded to a
/// word, the selector.
pub open spec fn unknown_selector_data(selector: Selector) -> Seq<u8> {
    unknown_function_selector() + selector_bytes(selector) + Seq::new(28, |i: int| 0u8)
}

/// The bytes of the selector of call data are its first four.
pub proof fn law_selector_bytes(calldata: Seq<u8>)
    requires
        calldata.len() >= 4,
    ensures
        selector_of(calldata) is Some,
        selector_bytes(selector_of(calldata)->0) == calldata.take(4),
{
    reveal_with_fuel(crate::abi::be_value, 5);
    let s = calldata.take(4);
    assert(s.drop_last().drop_last().drop_last().drop_last() =~= Seq::empty());
    assert(s.last() == calldata[3]);
    assert(s.drop_last().last() == calldata[2]);
    assert(s.drop_last().drop_last().last() == calldata[1]);
    assert(s.drop_last().drop_last().drop_last().last() == calldata[0]);
    assert(selector_bytes(selector_of(calldata)->0) =~= s);
}

/// The name of the reason for which a call without a selector halts before T1.
pub open spec fn missing_selector() -> PrecompileHalt {
    PrecompileHalt::Other("Invalid input: missing function selector")
}

/// How a call ends whose selector is missing or gated out.
pub open spec fn selector_refusal(
    calldata: Seq<u8>,
    schedules: Seq<SelectorSchedule>,
    storage: StorageCtx,
) -> Option<OutputModel> {
    match selector_of(calldata) {
        None => if storage.spec.spec_is_t1() {
            Some(storage.reverted(Seq::empty()))
        } else {
            Some(storage.halted(missing_selector()))
        },
        Some(selector) => if any_gates_out(schedules, selector, storage.spec) {
            Some(storage.reverted(unknown_selector_data(selector)))
        } else {
            None
        },
    }
}

/// Returns the output of a call whose selector is unknown.
pub fn unknown_selector_output(storage: &StorageCtx, selector: Selector) -> (r: PrecompileOutput)
    requires
        storage.wf(),
    ensures
        r@ == storage.reverted(unknown_selector_data(selector)),
{
    let mut bytes: Vec<u8> = vec![
        0xaa,
        0x4b,
        0xc6,
        0x9a,
        (selector / 0x100_0000) as u8,
        (selector / 0x1_0000 % 0x100) as u8,
        (selector / 0x100 % 0x100) as u8,
        (selector % 0x100) as u8,
    ];
    let ghost head = unknown_function_selector() + selector_bytes(selector);
    assert(bytes@ =~= head);
    while bytes.len() < 36
        invariant
            8 <= bytes@.len() <= 36,
            head.len() == 8,
            forall|i: int| 0 <= i < 8 ==> bytes@[i] == head[i],
            forall|i: int| 8 <= i < bytes@.len() ==> bytes@[i] == 0,
        decreases 36 - bytes@.len(),
    {
        bytes.push(0);
    }
    assert(bytes@ =~= unknown_selector_data(selector));
    storage.revert_output(bytes)
}

/// Checks the selector of a call: it must be there, and must not be gated out by any of the
/// schedules.
pub fn check_selector(
    calldata: &[u8],
    hardforks: &Vec<SelectorSchedule>,
    storage: &StorageCtx,
) -> (r: Result<Selector, PrecompileOutput>)
    requires
        storage.wf(),
    ensures
        match selector_refusal(calldata@, hardforks@, *storage) {
            Some(output) => r is Err && r->Err_0@ == output,
            None => selector_of(calldata@) is Some && r == Ok::<Selector, PrecompileOutput>(
                selector_of(calldata@)->0,
            ),
        },
{
    let selector: Selector = match selector(calldata) {
        Some(selector) => selector,
        None => {
            if storage.spec.is_t1() {
                let empty: Vec<u8> = Vec::new();
                assert(empty@ =~= Seq::empty());
                return Err(storage.revert_output(empty));
            } else {
                return Err(
                    storage.halt_output(
                        PrecompileHalt::Other("Invalid input: missing function selector"),
                    ),
                );
            }
        },
    };
    let mut i: usize = 0;
    while i < hardforks.len()
        invariant
            storage.wf(),
            selector_of(calldata@) == Some(selector),
            i <= hardforks@.len(),
            forall|j: int|
                0 <= j < i ==> !(#[trigger] hardforks@[j]).gates_out(selector, storage.spec),
        decreases hardforks@.len() - i,
    {
        if hardforks[i].rejects(selector, storage.spec) {
            assert(hardforks@[i as int].gates_out(selector, storage.spec));
            return Err(unknown_selector_output(storage, selector));
        }
        i = i + 1;
    }
    Ok(selector)
}

/// Why call data could not be decoded.
#[derive(Debug, Clone, Copy, PartialEq, Eq, Structural)]
pub enum DecodeError {
    /// No function has this selector.
    UnknownSelector(Selector),
    /// The arguments are malformed.
    Malformed,
}

/// How a call with a selector ends, given what its handler handed back or why it could not be
/// decoded.
pub open spec fn dispatched(
    storage: StorageCtx,
    handled: Result<OutputModel, DecodeError>,
) -> OutputModel {
    match handled {
        Ok(output) => filled(
            (OutputModel { gas_used: storage.spec_gas_used() as u64, ..output }),
            storage,
        ),
        Err(DecodeError::UnknownSelector(selector)) => storage.reverted(
            unknown_selector_data(selector),
        ),
        Err(DecodeError::Malformed) => storage.reverted(Seq::empty()),
    }
}

/// Finishes a call with a selector: tells the gas used and fills in the gas for state growth, or
/// reverts if the call could not be decoded.
pub fn finish_dispatch(
    storage: &StorageCtx,
    handled: Result<PrecompileOutput, DecodeError>,
) -> (r: PrecompileOutput)
    requires
        storage.wf(),
        handled matches Ok(output) ==> can_fill(output@, *storage),
    ensures
        r@ == dispatched(
            *storage,
            match handled {
                Ok(output) => Ok(output@),
                Err(err) => Err(err),
            },
        ),
{
    match handled {
        Ok(mut output) => {
            let ghost before = output@;
            output.gas_used = storage.gas_used();
            assert(output@ =~= (OutputModel {
                gas_used: storage.spec_gas_used() as u64,
                ..before
            }));
            fill_state_gas(&mut output, storage);
            output
        },
        Err(DecodeError::UnknownSelector(selector)) => unknown_selector_output(storage, selector),
        Err(DecodeError::Malformed) => {
            let empty: Vec<u8> = Vec::new();
            assert(empty@ =~= Seq::empty());
            storage.revert_output(empty)
        },
    }
}

/// A call of a precompile.
#[derive(Debug, Clone)]
pub struct PrecompileInput {
    /// The call data.
    pub data: Vec<u8>,
    /// The caller.
    pub caller: Address,
    /// The gas that the call is given.
    pub gas: u64,
    /// The gas in reserve for state growth.
    pub reservoir: u64,
    /// Whether the call must not change the state.
    pub is_static: bool,
    /// The account whose state the call runs on.
    pub target_address: Address,
    /// The account whose code the call runs.
    pub bytecode_address: Address,
}

/// The data with which a call on behalf of another account is reverted: the selector of
/// `DelegateCallNotAllowed()`.
pub open spec fn delegate_call_not_allowed() -> Seq<u8> {
    seq![0x0du8, 0x89u8, 0x43u8, 0x8eu8]
}

/// The data with which a call that would change the state is reverted where it must not: the
/// selector of `StaticCallNotAllowed()`.
pub open spec fn static_call_not_allowed() -> Seq<u8> {
    seq![0xbeu8, 0xabu8, 0xa5u8, 0xb7u8]
}

impl PrecompileInput {
    /// The call runs the code of the precompile on its own state.
    pub open spec fn is_direct(self) -> bool {
        self.target_address == self.bytecode_address
    }

    /// Returns `true` if the call runs the code of the precompile on its own state.
    pub fn is_direct_call(&self) -> (r: bool)
        ensures
            r == self.is_direct(),
    {
        self.target_address == self.bytecode_address
    }

    /// Enters a precompile: every call but a direct one is reverted, whatever the precompile.
    pub fn enter(&self, spec: TempoHardfork, amsterdam_eip8037_enabled: bool) -> (r: Result<
        StorageCtx,
        PrecompileOutput,
    >)
        ensures
            if self.is_direct() {
                r == Ok::<StorageCtx, PrecompileOutput>(
                    StorageCtx {
                        spec,
                        gas_limit: self.gas,
                        gas_remaining: self.gas,
                        gas_refunded: 0,
                        reservoir: self.reservoir,
                        state_gas_used: 0,
                        amsterdam_eip8037_enabled,
                        is_static: self.is_static,
                    },
                )
            } else {
                r is Err && r->Err_0@ == output_of(
                    PrecompileStatus::Revert,
                    delegate_call_not_allowed(),
                    0,
                    self.reservoir,
                )
            },
    {
        if !self.is_direct_call() {
            let bytes: Vec<u8> = vec![0x0d, 0x89, 0x43, 0x8e];
            assert(bytes@ =~= delegate_call_not_allowed());
            return Err(
                PrecompileOutput::new(PrecompileStatus::Revert, bytes, 0, self.reservoir),
            );
        }
        Ok(
            StorageCtx {
                spec,
                gas_limit: self.gas,
                gas_remaining: self.gas,
                gas_refunded: 0,
                reservoir: self.reservoir,
                state_gas_used: 0,
                amsterdam_eip8037_enabled,
                is_static: self.is_static,
            },
        )
    }
}

impl StorageCtx {
    /// Checks that a call may change the state: a static call may not.
    pub fn check_mutable(&self) -> (r: Result<(), PrecompileOutput>)
        ensures
            if self.is_static {
                r is Err && r->Err_0@ == output_of(
                    PrecompileStatus::Revert,
                    static_call_not_allowed(),
                    0,
                    self.reservoir,
                )
            } else {
                r is Ok
            },
    {
        if self.is_static {
            let bytes: Vec<u8> = vec![0xbe, 0xab, 0xa5, 0xb7];
            assert(bytes@ =~= static_call_not_allowed());
            return Err(
                PrecompileOutput::new(PrecompileStatus::Revert, bytes, 0, self.reservoir),
            );
        }
        Ok(())
    }
}

/// The precompiles of this chain.
#[derive(Debug, Clone, Copy, PartialEq, Eq, Structural)]
pub enum TempoPrecompile {
    /// A TIP-20 token.
    Tip20Token(Address),
    /// The factory of TIP-20 tokens.
    Tip20Factory,
    /// The reserve of payment channels.
    Tip20ChannelReserve,
    /// The address registry.
    AddressRegistry,
    /// The registry of transfer policies.
    Tip403Registry,
    /// The fee manager.
    TipFeeManager,
    /// The exchange for stablecoins.
    StablecoinDex,
    /// The nonce manager.
    NonceManager,
    /// The first validator configuration.
    ValidatorConfig,
    /// The account keychain.
    AccountKeychain,
    /// The second validator configuration.
    ValidatorConfigV2,
    /// The signature verifier.
    SignatureVerifier,
    /// The guard of receive policies.
    ReceivePolicyGuard,
}

/// The fixed system precompiles and the hardforks that activate them.
pub open spec fn system_precompile_list(at: SystemAddresses) -> Seq<(Address, TempoHardfork)> {
    seq![
        (at.tip403_registry, TempoHardfork::Genesis),
        (at.tip_fee_manager, TempoHardfork::Genesis),
        (at.stablecoin_dex, TempoHardfork::Genesis),
        (at.nonce, TempoHardfork::Genesis),
        (at.account_keychain, TempoHardfork::Genesis),
        (at.validator_config, TempoHardfork::Genesis),
        (at.validator_config_v2, TempoHardfork::Genesis),
        (at.tip20_factory, TempoHardfork::Genesis),
        (at.address_registry, TempoHardfork::T3),
        (at.signature_verifier, TempoHardfork::T3),
        (at.tip20_channel_reserve, TempoHardfork::T5),
        (at.receive_policy_guard, TempoHardfork::T6),
    ]
}

/// Returns the fixed system precompile addresses and the hardforks that activate them.
pub fn system_precompiles(at: &SystemAddresses) -> (r: Vec<(Address, TempoHardfork)>)
    ensures
        r@ == system_precompile_list(*at),
{
    let r: Vec<(Address, TempoHardfork)> = vec![
        (at.tip403_registry, TempoHardfork::Genesis),
        (at.tip_fee_manager, TempoHardfork::Genesis),
        (at.stablecoin_dex, TempoHardfork::Genesis),
        (at.nonce, TempoHardfork::Genesis),
        (at.account_keychain, TempoHardfork::Genesis),
        (at.validator_config, TempoHardfork::Genesis),
        (at.validator_config_v2, TempoHardfork::Genesis),
        (at.tip20_factory, TempoHardfork::Genesis),
        (at.address_registry, TempoHardfork::T3),
        (at.signature_verifier, TempoHardfork::T3),
        (at.tip20_channel_reserve, TempoHardfork::T5),
        (at.receive_policy_guard, TempoHardfork::T6),
    ];
    assert(r@ =~= system_precompile_list(*at));
    r
}

/// The entry of the list is for the address, and active.
pub open spec fn active_at(
    entry: (Address, TempoHardfork),
    address: Address,
    spec: TempoHardfork,
) -> bool {
    entry.0 == address && spec.place() >= entry.1.place()
}

/// The address is that of a precompile: of a TIP-20 token, or of an active system precompile.
pub open spec fn is_precompile(
    address: Address,
    spec: TempoHardfork,
    at: SystemAddresses,
) -> bool {
    tip20_prefixed(address) || exists|i: int|
        0 <= i < system_precompile_list(at).len() && active_at(
            #[trigger] system_precompile_list(at)[i],
            address,
            spec,
        )
}

/// Returns `true` if `addr` is any precompile active at `spec`: a TIP-20 token (matched by prefix)
/// or a fixed system precompile.
pub fn is_precompile_address(addr: Address, spec: TempoHardfork, at: &SystemAddresses) -> (r: bool)
    ensures
        r == is_precompile(addr, spec, *at),
{
    if is_tip20_prefix(&addr) {
        return true;
    }
    let list = system_precompiles(at);
    let mut i: usize = 0;
    while i < list.len()
        invariant
            list@ == system_precompile_list(*at),
            i <= list@.len(),
            !tip20_prefixed(addr),
            forall|j: int| 0 <= j < i ==> !active_at(#[trigger] list@[j], addr, spec),
        decreases list@.len() - i,
    {
        if list[i].0 == addr && spec.includes(list[i].1) {
            assert(active_at(system_precompile_list(*at)[i as int], addr, spec));
            return true;
        }
        i = i + 1;
    }
    false
}

/// The precompile at an address.
pub open spec fn precompile_at(
    address: Address,
    spec: TempoHardfork,
    at: SystemAddresses,
) -> Option<TempoPrecompile> {
    if tip20_prefixed(address) {
        Some(TempoPrecompile::Tip20Token(address))
    } else if address == at.tip20_factory {
        Some(TempoPrecompile::Tip20Factory)
    } else if address == at.tip20_channel_reserve && spec.place() >= TempoHardfork::T5.place() {
        Some(TempoPrecompile::Tip20ChannelReserve)
    } else if address == at.address_registry && spec.place() >= TempoHardfork::T3.place() {
        Some(TempoPrecompile::AddressRegistry)
    } else if address == at.tip403_registry {
        Some(TempoPrecompile::Tip403Registry)
    } else if address == at.tip_fee_manager {
        Some(TempoPrecompile::TipFeeManager)
    } else if address == at.stablecoin_dex {
        Some(TempoPrecompile::StablecoinDex)
    } else if address == at.nonce {
        Some(TempoPrecompile::NonceManager)
    } else if address == at.validator_config {
        Some(TempoPrecompile::ValidatorConfig)
    } else if address == at.account_keychain {
        Some(TempoPrecompile::AccountKeychain)
    } else if address == at.validator_config_v2 {
        Some(TempoPrecompile::ValidatorConfigV2)
    } else if address == at.signature_verifier && spec.place() >= TempoHardfork::T3.place() {
        Some(TempoPrecompile::SignatureVerifier)
    } else if address == at.receive_policy_guard && spec.place() >= TempoHardfork::T6.place() {
        Some(TempoPrecompile::ReceivePolicyGuard)
    } else {
        None
    }
}

/// Looks up the precompile at an address: TIP-20 tokens by prefix, the others by their address and
/// from their hardfork on.
pub fn extend_tempo_precompiles(address: &Address, spec: TempoHardfork, at: &SystemAddresses) -> (r:
    Option<TempoPrecompile>)
    ensures
        r == precompile_at(*address, spec, *at),
{
    if is_tip20_prefix(address) {
        Some(TempoPrecompile::Tip20Token(*address))
    } else if *address == at.tip20_factory {
        Some(TempoPrecompile::Tip20Factory)
    } else if *address == at.tip20_channel_reserve && spec.includes(TempoHardfork::T5) {
        Some(TempoPrecompile::Tip20ChannelReserve)
    } else if *address == at.address_registry && spec.includes(TempoHardfork::T3) {
        Some(TempoPrecompile::AddressRegistry)
    } else if *address == at.tip403_registry {
        Some(TempoPrecompile::Tip403Registry)
    } else if *address == at.tip_fee_manager {
        Some(TempoPrecompile::TipFeeManager)
    } else if *address == at.stablecoin_dex {
        Some(TempoPrecompile::StablecoinDex)
    } else if *address == at.nonce {
        Some(TempoPrecompile::NonceManager)
    } else if *address == at.validator_config {
        Some(TempoPrecompile::ValidatorConfig)
    } else if *address == at.account_keychain {
        Some(TempoPrecompile::AccountKeychain)
    } else if *address == at.validator_config_v2 {
        Some(TempoPrecompile::ValidatorConfigV2)
    } else if *address == at.signature_verifier && spec.includes(TempoHardfork::T3) {
        Some(TempoPrecompile::SignatureVerifier)
    } else if *address == at.receive_policy_guard && spec.includes(TempoHardfork::T6) {
        Some(TempoPrecompile::ReceivePolicyGuard)
    } else {
        None
    }
}

/// There is a precompile at an address exactly if the address is that of a precompile.
pub proof fn law_lookup_finds_precompiles(
    address: Address,
    spec: TempoHardfork,
    at: SystemAddresses,
)
    ensures
        precompile_at(address, spec, at) is Some <==> is_precompile(address, spec, at),
{
    let list = system_precompile_list(at);
    assert(list[0] == (at.tip403_registry, TempoHardfork::Genesis));
    assert(list[1] == (at.tip_fee_manager, TempoHardfork::Genesis));
    assert(list[2] == (at.stablecoin_dex, TempoHardfork::Genesis));
    assert(list[3] == (at.nonce, TempoHardfork::Genesis));
    assert(list[4] == (at.account_keychain, TempoHardfork::Genesis));
    assert(list[5] == (at.validator_config, TempoHardfork::Genesis));
    assert(list[6] == (at.validator_config_v2, TempoHardfork::Genesis));
    assert(list[7] == (at.tip20_factory, TempoHardfork::Genesis));
    assert(list[8] == (at.address_registry, TempoHardfork::T3));
    assert(list[9] == (at.signature_verifier, TempoHardfork::T3));
    assert(list[10] == (at.tip20_channel_reserve, TempoHardfork::T5));
    assert(list[11] == (at.receive_policy_guard, TempoHardfork::T6));
    if is_precompile(address, spec, at) && !tip20_prefixed(address) {
        let i = choose|i: int| 0 <= i < list.len() && active_at(#[trigger] list[i], address, spec);
        assert(active_at(list[i], address, spec));
    }
}

/// Where the system addresses differ from one another and from those of tokens, each listed
/// precompile is active exactly from its hardfork on: at that hardfork and at the last one, and not
/// at the first one unless it is there from the beginning.
pub proof fn law_listed_precompiles(i: int, spec: TempoHardfork, at: SystemAddresses)
    requires
        at.distinct(),
        0 <= i < system_precompile_list(at).len(),
    ensures
        ({
            let (address, activated) = system_precompile_list(at)[i];
            &&& is_precompile(address, spec, at) <==> spec.place() >= activated.place()
            &&& is_precompile(address, activated, at)
            &&& is_precompile(address, TempoHardfork::T7, at)
            &&& activated != TempoHardfork::Genesis ==> !is_precompile(
                address,
                TempoHardfork::Genesis,
                at,
            )
        }),
{
    let list = system_precompile_list(at);
    let (address, activated) = list[i];
    assert forall|j: int| 0 <= j < list.len() implies (#[trigger] list[j]).0 == at.all()[j] by {}
    assert(!tip20_prefixed(at.all()[i]));
    assert forall|s: TempoHardfork|
        #[trigger] is_precompile(address, s, at) <==> s.place() >= activated.place() by {
        if is_precompile(address, s, at) {
            let j = choose|j: int| 0 <= j < list.len() && active_at(#[trigger] list[j], address, s);
            assert(at.all()[j] == at.all()[i]);
        }
        if s.place() >= activated.place() {
            assert(active_at(list[i], address, s));
        }
    }
}

/// A precompile once active stays active at every later hardfork.
pub proof fn law_precompiles_stay(
    address: Address,
    earlier: TempoHardfork,
    later: TempoHardfork,
    at: SystemAddresses,
)
    requires
        earlier.place() <= later.place(),
        is_precompile(address, earlier, at),
    ensures
        is_precompile(address, later, at),
{
    if !tip20_prefixed(address) {
        let list = system_precompile_list(at);
        let i = choose|i: int|
            0 <= i < list.len() && active_at(#[trigger] list[i], address, earlier);
        assert(active_at(list[i], address, later));
    }
}

/// The precompiles of the execution layer that stand beside those of this chain.
#[derive(Debug, Clone, Copy, PartialEq, Eq, Structural)]
pub enum EthPrecompiles {
    /// Those of Prague.
    Prague,
    /// Those of Osaka, which verify P256 signatures too.
    Osaka,
}

/// Returns which precompiles of the execution layer are active: those of Prague before T1C, and
/// those of Osaka from T1C on.
pub fn tempo_precompiles(spec: TempoHardfork) -> (r: EthPrecompiles)
    ensures
        r == (if spec.place() >= TempoHardfork::T1C.place() {
            EthPrecompiles::Osaka
        } else {
            EthPrecompiles::Prague
        }),
{
    if spec.includes(TempoHardfork::T1C) {
        EthPrecompiles::Osaka
    } else {
        EthPrecompiles::Prague
    }
}

} // verus!
