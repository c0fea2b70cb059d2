//! In which token a transaction pays its fee, and whether that token can be used.
use crate::abi::{
    first_address, infers_fee_token, is_tip20_fee_inference_call, selector_of, set_user_token_call,
    swap_call, SET_USER_TOKEN, SWAP_EXACT_AMOUNT_IN, SWAP_EXACT_AMOUNT_OUT,
};
use crate::addresses::SystemAddresses;
use crate::error::{Currency, TempoInvalidTransaction};
use crate::hardfork::TempoHardfork;
use crate::ordered::OrdKey;
use crate::primitives::{Address, U256};
use crate::tip20::{default_fee_token, is_tip20_prefix, spec_default_fee_token, tip20_prefixed};
use crate::transaction::{Call, TempoTxEnvelope, TxKind};
use vstd::prelude::*;

verus! {

/// One call: its target and its input data.
pub type CallModel = (TxKind, Seq<u8>);

/// Helper trait to abstract over different representations of transactions.
pub trait TempoTx {
    /// The fee token that the transaction names.
    spec fn spec_fee_token(&self) -> Option<Address>;

    /// The transaction is an account-abstraction transaction.
    spec fn spec_is_aa(&self) -> bool;

    /// The calls.
    spec fn spec_calls(&self) -> Seq<CallModel>;

    /// The caller.
    spec fn spec_caller(&self) -> Address;

    /// Returns the fee token that the transaction names.
    fn fee_token(&self) -> (r: Option<Address>)
        ensures
            r == self.spec_fee_token(),
    ;

    /// Returns true if this is an account-abstraction transaction.
    fn is_aa(&self) -> (r: bool)
        ensures
            r == self.spec_is_aa(),
    ;

    /// Returns the number of calls.
    fn call_count(&self) -> (r: usize)
        ensures
            r == self.spec_calls().len(),
    ;

    /// Returns the target and the input data of a call.
    fn call(&self, i: usize) -> (r: (TxKind, &Vec<u8>))
        requires
            i < self.spec_calls().len(),
        ensures
            (r.0, r.1@) == self.spec_calls()[i as int],
    ;

    /// Returns the caller.
    fn caller(&self) -> (r: Address)
        ensures
            r == self.spec_caller(),
    ;
}

/// The calls of a list.
pub open spec fn call_models(calls: Seq<Call>) -> Seq<CallModel> {
    calls.map_values(|c: Call| (c.to, c.input@))
}

/// A transaction as the execution environment sees it.
#[derive(Debug, Clone)]
pub struct TempoTxEnv {
    /// The fee token that the transaction names, if any.
    pub fee_token: Option<Address>,
    /// The caller.
    pub caller: Address,
    /// The target, of a transaction with a single call.
    pub kind: TxKind,
    /// The input data, of a transaction with a single call.
    pub data: Vec<u8>,
    /// The calls, of an account-abstraction transaction.
    pub aa_calls: Option<Vec<Call>>,
}

impl TempoTx for TempoTxEnv {
    open spec fn spec_fee_token(&self) -> Option<Address> {
        self.fee_token
    }

    open spec fn spec_is_aa(&self) -> bool {
        self.aa_calls is Some
    }

    open spec fn spec_calls(&self) -> Seq<CallModel> {
        match self.aa_calls {
            Some(calls) => call_models(calls@),
            None => seq![(self.kind, self.data@)],
        }
    }

    open spec fn spec_caller(&self) -> Address {
        self.caller
    }

    fn fee_token(&self) -> (r: Option<Address>) {
        self.fee_token
    }

    fn is_aa(&self) -> (r: bool) {
        self.aa_calls.is_some()
    }

    fn call_count(&self) -> (r: usize) {
        match &self.aa_calls {
            Some(calls) => calls.len(),
            None => 1,
        }
    }

    fn call(&self, i: usize) -> (r: (TxKind, &Vec<u8>)) {
        match &self.aa_calls {
            Some(calls) => (calls[i].to, &calls[i].input),
            None => (self.kind, &self.data),
        }
    }

    fn caller(&self) -> (r: Address) {
        self.caller
    }
}

impl TempoTx for TempoTxEnvelope {
    open spec fn spec_fee_token(&self) -> Option<Address> {
        self.fee_token
    }

    open spec fn spec_is_aa(&self) -> bool {
        self.aa is Some
    }

    open spec fn spec_calls(&self) -> Seq<CallModel> {
        match self.aa {
            Some(aa) => call_models(aa.calls@),
            None => seq![(self.kind, self.input@)],
        }
    }

    open spec fn spec_caller(&self) -> Address {
        self.sender
    }

    fn fee_token(&self) -> (r: Option<Address>) {
        self.fee_token
    }

    fn is_aa(&self) -> (r: bool) {
        self.aa.is_some()
    }

    fn call_count(&self) -> (r: usize) {
        match &self.aa {
            Some(aa) => aa.calls.len(),
            None => 1,
        }
    }

    fn call(&self, i: usize) -> (r: (TxKind, &Vec<u8>)) {
        match &self.aa {
            Some(aa) => (aa.calls[i].to, &aa.calls[i].input),
            None => (self.kind, &self.input),
        }
    }

    fn caller(&self) -> (r: Address) {
        self.sender
    }
}

/// Why a question about a token has no answer.
#[derive(Debug, Clone, Copy, PartialEq, Eq)]
pub enum TokenError<E> {
    /// The address is not that of a TIP-20 token.
    InvalidToken,
    /// The state could not be read.
    State(E),
}

/// The longest string that is stored in its slot itself.
pub const MAX_SHORT_STRING: usize = 31;

/// The length of a string by the word in its slot: twice the length of a short string is in the
/// last byte, which is even; for a long one, the whole word is twice the length and one.
pub open spec fn string_len(slot: U256) -> int {
    if slot@ % 2 == 1 {
        slot@ / 2
    } else {
        (slot@ % 256) / 2
    }
}

/// The length of a string, capped by what a machine integer holds.
pub open spec fn capped_len(slot: U256) -> usize {
    if string_len(slot) <= usize::MAX {
        string_len(slot) as usize
    } else {
        usize::MAX
    }
}

/// The byte of a word with index `i`, the first one being the highest.
pub open spec fn byte_of(slot: U256, i: int) -> u8 {
    if i < 16 {
        (slot.hi as int / pow256(15 - i) % 256) as u8
    } else {
        (slot.lo as int / pow256(31 - i) % 256) as u8
    }
}

/// A power of 256.
pub open spec fn pow256(n: int) -> int
    decreases n,
{
    if n <= 0 {
        1
    } else {
        256 * pow256(n - 1)
    }
}

/// The bytes of a short string by the word in its slot: they come first in it.
pub open spec fn short_string(slot: U256) -> Seq<u8> {
    Seq::new(string_len(slot) as nat, |i: int| byte_of(slot, i))
}

/// Returns the length of a string by the word in its slot.
fn read_string_len(slot: &U256) -> (r: usize)
    ensures
        r == capped_len(*slot),
{
    proof {
        lemma_parity(*slot);
    }
    if slot.lo % 2 == 1 {
        if slot.hi == 0 && slot.lo / 2 <= usize::MAX as u128 {
            (slot.lo / 2) as usize
        } else if slot.hi == 0 {
            usize::MAX
        } else {
            usize::MAX
        }
    } else {
        ((slot.lo % 256) / 2) as usize
    }
}

proof fn lemma_parity(slot: U256)
    ensures
        slot@ % 2 == slot.lo % 2,
        slot@ % 256 == slot.lo % 256,
        slot.hi == 0 ==> slot@ / 2 == slot.lo / 2,
        slot.hi > 0 ==> slot@ / 2 > u64::MAX,
{
    let hi = slot.hi as int;
    let lo = slot.lo as int;
    let big = crate::primitives::two_128();
    assert(big == 256 * 0x1_0000_0000_0000_0000_0000_0000_0000_00int);
    assert((hi * big + lo) % 256 == lo % 256) by (nonlinear_arith)
        requires
            big == 256 * 0x1_0000_0000_0000_0000_0000_0000_0000_00int,
    ;
    assert((hi * big + lo) % 2 == lo % 2) by (nonlinear_arith)
        requires
            big == 256 * 0x1_0000_0000_0000_0000_0000_0000_0000_00int,
    ;
    if slot.hi > 0 {
        assert(hi * big + lo >= big) by (nonlinear_arith)
            requires
                hi >= 1,
                lo >= 0,
                big > 0,
        ;
    }
}

/// Returns the byte of a word with index `i`.
fn read_byte(slot: &U256, i: usize) -> (r: u8)
    requires
        i < 32,
    ensures
        r == byte_of(*slot, i as int),
{
    let half: u128 = if i < 16 {
        slot.hi
    } else {
        slot.lo
    };
    let steps: usize = if i < 16 {
        15 - i
    } else {
        31 - i
    };
    let mut rest: u128 = half;
    let mut k: usize = 0;
    assert(half as int / 1 == half as int);
    while k < steps
        invariant
            k <= steps <= 15,
            rest == half as int / pow256(k as int),
            0 < pow256(k as int),
        decreases steps - k,
    {
        let ghost p = pow256(k as int);
        proof {
            assert(pow256(k + 1) == 256 * p);
            vstd::arithmetic::div_mod::lemma_div_denominator(half as int, p, 256);
            assert(p * 256 == 256 * p);
        }
        rest = rest / 256;
        k = k + 1;
    }
    (rest % 256) as u8
}

/// Returns the bytes of a short string by the word in its slot.
fn read_short_string(slot: &U256) -> (r: Vec<u8>)
    requires
        string_len(*slot) <= MAX_SHORT_STRING,
    ensures
        r@ == short_string(*slot),
{
    let len: usize = read_string_len(slot);
    let mut r: Vec<u8> = Vec::new();
    while r.len() < len
        invariant
            len == string_len(*slot) <= MAX_SHORT_STRING,
            r@.len() <= len,
            forall|i: int| 0 <= i < r@.len() ==> r@[i] == byte_of(*slot, i),
        decreases len - r@.len(),
    {
        let i: usize = r.len();
        r.push(read_byte(slot, i));
    }
    assert(r@ =~= short_string(*slot));
    r
}

/// The code of the US dollar.
pub open spec fn usd() -> Seq<u8> {
    seq![0x55u8, 0x53u8, 0x44u8]
}

fn is_usd(code: &Vec<u8>) -> (r: bool)
    ensures
        r == (code@ == usd()),
{
    let r = code.len() == 3 && code[0] == 0x55 && code[1] == 0x53 && code[2] == 0x44;
    proof {
        if r {
            assert(code@ =~= usd());
        }
    }
    r
}

/// The currency is the US dollar, by the word in its slot.
pub open spec fn slot_is_usd(slot: U256) -> bool {
    string_len(slot) == 3 && short_string(slot) == usd()
}

/// The answer to a question about a token, given what was read.
pub open spec fn answer<T, E>(read: Result<T, E>) -> Result<T, TokenError<E>> {
    match read {
        Ok(value) => Ok(value),
        Err(err) => Err(TokenError::State(err)),
    }
}

/// The calls all have the same target, and are calls from which the fee token is inferred.
pub open spec fn all_infer(calls: Seq<CallModel>, to: Address) -> bool {
    forall|i: int| 0 <= i < calls.len() ==> infers(#[trigger] calls[i], to)
}

/// The call has the target, and is one from which the fee token is inferred.
pub open spec fn infers(call: CallModel, to: Address) -> bool {
    call.0 == TxKind::Call(to) && (selector_of(call.1) matches Some(selector) && infers_fee_token(
        selector,
    ))
}

/// The fee token that a transaction sets with its call of the fee manager: one that is no
/// account-abstraction transaction and whose caller pays the fee.
pub open spec fn token_being_set(
    is_aa: bool,
    calls: Seq<CallModel>,
    caller: Address,
    fee_payer: Address,
    at: SystemAddresses,
) -> Option<Address> {
    if !is_aa && fee_payer == caller && calls.len() > 0 && calls[0].0 == TxKind::Call(
        at.tip_fee_manager,
    ) {
        first_address(calls[0].1, SET_USER_TOKEN, 1)
    } else {
        None
    }
}

/// The token that all calls of a transaction are for, if its fee may be paid in it: an
/// account-abstraction transaction must be paid for by its caller.
pub open spec fn token_being_called(
    is_aa: bool,
    calls: Seq<CallModel>,
    caller: Address,
    fee_payer: Address,
) -> Option<Address> {
    if calls.len() > 0 && (!is_aa || fee_payer == caller) {
        match calls[0].0 {
            TxKind::Call(to) => if all_infer(calls, to) {
                Some(to)
            } else {
                None
            },
            TxKind::Create => None,
        }
    } else {
        None
    }
}

/// The token that a transaction swaps on the exchange: of an account-abstraction transaction with
/// one call, or of any other transaction.
pub open spec fn token_being_swapped(
    is_aa: bool,
    calls: Seq<CallModel>,
    at: SystemAddresses,
) -> Option<Address> {
    if calls.len() > 0 && calls[0].0 == TxKind::Call(at.stablecoin_dex) && (!is_aa || calls.len()
        == 1) {
        match first_address(calls[0].1, SWAP_EXACT_AMOUNT_IN, 4) {
            Some(token) => Some(token),
            None => first_address(calls[0].1, SWAP_EXACT_AMOUNT_OUT, 4),
        }
    } else {
        None
    }
}

/// Whether a token can be used for fees, given the word in the slot of its currency code: it must
/// be a TIP-20 token in US dollars.
pub open spec fn usable<E>(token: Address, slot: Result<U256, E>) -> Result<bool, TokenError<E>> {
    if !tip20_prefixed(token) {
        Ok(false)
    } else {
        match slot {
            Ok(slot) => Ok(slot_is_usd(slot)),
            Err(err) => Err(TokenError::State(err)),
        }
    }
}

/// The fee token of a transaction, as far as its calls decide it: the token they are for, else the
/// token they swap, if it can be used, else the default.
pub open spec fn token_by_calls<S: TempoStateAccess>(
    s: S::State,
    spec: TempoHardfork,
    called: Option<Address>,
    swapped: Option<Address>,
) -> Result<Address, TokenError<S::Error>> {
    let by_swap = match swapped {
        Some(token) => match usable(token, S::currency_slot(s, spec, token)) {
            Ok(true) => Ok(token),
            Ok(false) => Ok(spec_default_fee_token()),
            Err(err) => Err(err),
        },
        None => Ok(spec_default_fee_token()),
    };
    match called {
        Some(token) => match usable(token, S::currency_slot(s, spec, token)) {
            Ok(true) => Ok(token),
            Ok(false) => by_swap,
            Err(err) => Err(err),
        },
        None => by_swap,
    }
}

/// The token in which a transaction pays its fee: the one it names, else the one it sets as the
/// preference of its caller, else the stored preference of the fee payer, else as its calls decide.
pub open spec fn fee_token_of<S: TempoStateAccess, T: TempoTx>(
    s: S::State,
    tx: T,
    fee_payer: Address,
    spec: TempoHardfork,
    at: SystemAddresses,
) -> Result<Address, TokenError<S::Error>> {
    let calls = tx.spec_calls();
    let is_aa = tx.spec_is_aa();
    let set = token_being_set(is_aa, calls, tx.spec_caller(), fee_payer, at);
    if tx.spec_fee_token() is Some {
        Ok(tx.spec_fee_token()->0)
    } else if set is Some {
        Ok(set->0)
    } else {
        match S::user_token(s, spec, fee_payer) {
            Ok(token) => if token.ord() != 0 {
                Ok(token)
            } else {
                token_by_calls::<S>(
                    s,
                    spec,
                    token_being_called(is_aa, calls, tx.spec_caller(), fee_payer),
                    token_being_swapped(is_aa, calls, at),
                )
            },
            Err(err) => Err(TokenError::State(err)),
        }
    }
}

/// Why a token fails the check of its currency.
#[derive(Debug, Clone, PartialEq, Eq)]
pub enum CurrencyError<E> {
    /// The token is not in US dollars.
    Invalid(TempoInvalidTransaction),
    /// The state could not be read.
    State(E),
}

/// The refusal of a token whose currency is not the US dollar. A code that is too long is not
/// looked at, only its length is told.
pub open spec fn refuses_currency<E>(err: CurrencyError<E>, token: Address, slot: U256) -> bool {
    match err {
        CurrencyError::Invalid(
            TempoInvalidTransaction::FeeTokenNotUsdCurrency { address, currency },
        ) => address == token && match currency {
            Currency::Oversized(len) => capped_len(slot) > MAX_SHORT_STRING && len == capped_len(
                slot,
            ),
            Currency::Code(code) => capped_len(slot) <= MAX_SHORT_STRING && code@ == short_string(
                slot,
            ),
        },
        _ => false,
    }
}

/// Helper trait to answer questions about tokens on top of different state providers.
///
/// Reading may warm a cache, but does not change what is read.
pub trait TempoStateAccess: Sized {
    /// Error type returned by storage operations.
    type Error;

    /// The state.
    type State;

    /// The state that is read.
    spec fn state(&self) -> Self::State;

    /// The fee token that an account chose, or the zero address.
    spec fn user_token(s: Self::State, spec: TempoHardfork, account: Address) -> Result<
        Address,
        Self::Error,
    >;

    /// The word in the slot of the currency code of a token.
    spec fn currency_slot(s: Self::State, spec: TempoHardfork, token: Address) -> Result<
        U256,
        Self::Error,
    >;

    /// The token is paused.
    spec fn paused(s: Self::State, spec: TempoHardfork, token: Address) -> Result<
        bool,
        Self::Error,
    >;

    /// The transfer policy of a token.
    spec fn policy(s: Self::State, spec: TempoHardfork, token: Address) -> Result<
        u64,
        Self::Error,
    >;

    /// A policy lets an account send.
    spec fn may_send(
        s: Self::State,
        spec: TempoHardfork,
        policy_id: u64,
        account: Address,
    ) -> Result<bool, Self::Error>;

    /// A token lets one account transfer to another.
    spec fn may_transfer(
        s: Self::State,
        spec: TempoHardfork,
        token: Address,
        from: Address,
        to: Address,
    ) -> Result<bool, Self::Error>;

    /// The balance of an account in a token.
    spec fn balance(
        s: Self::State,
        spec: TempoHardfork,
        token: Address,
        account: Address,
    ) -> Result<U256, Self::Error>;

    /// Reads the fee token that an account chose, or the zero address.
    fn read_user_token(&mut self, spec: TempoHardfork, account: Address) -> (r: Result<
        Address,
        Self::Error,
    >)
        ensures
            final(self).state() == old(self).state(),
            r == Self::user_token(old(self).state(), spec, account),
    ;

    /// Reads the word in the slot of the currency code of a token.
    fn read_currency_slot(&mut self, spec: TempoHardfork, token: Address) -> (r: Result<
        U256,
        Self::Error,
    >)
        ensures
            final(self).state() == old(self).state(),
            r == Self::currency_slot(old(self).state(), spec, token),
    ;

    /// Reads whether a token is paused.
    fn read_paused(&mut self, spec: TempoHardfork, token: Address) -> (r: Result<
        bool,
        Self::Error,
    >)
        ensures
            final(self).state() == old(self).state(),
            r == Self::paused(old(self).state(), spec, token),
    ;

    /// Reads the transfer policy of a token.
    fn read_policy(&mut self, spec: TempoHardfork, token: Address) -> (r: Result<u64, Self::Error>)
        ensures
            final(self).state() == old(self).state(),
            r == Self::policy(old(self).state(), spec, token),
    ;

    /// Reads whether a policy lets an account send.
    fn read_may_send(&mut self, spec: TempoHardfork, policy_id: u64, account: Address) -> (r: Result<
        bool,
        Self::Error,
    >)
        ensures
            final(self).state() == old(self).state(),
            r == Self::may_send(old(self).state(), spec, policy_id, account),
    ;

    /// Reads whether a token lets one account transfer to another.
    fn read_may_transfer(
        &mut self,
        spec: TempoHardfork,
        token: Address,
        from: Address,
        to: Address,
    ) -> (r: Result<bool, Self::Error>)
        ensures
            final(self).state() == old(self).state(),
            r == Self::may_transfer(old(self).state(), spec, token, from, to),
    ;

    /// Reads the balance of an account in a token.
    fn read_balance(&mut self, spec: TempoHardfork, token: Address, account: Address) -> (r: Result<
        U256,
        Self::Error,
    >)
        ensures
            final(self).state() == old(self).state(),
            r == Self::balance(old(self).state(), spec, token, account),
    ;
}

/// Resolves user-level or transaction-level fee token preference.
pub fn get_fee_token<S: TempoStateAccess, T: TempoTx>(
    state: &mut S,
    tx: &T,
    fee_payer: Address,
    spec: TempoHardfork,
    at: &SystemAddresses,
) -> (r: Result<Address, TokenError<S::Error>>)
    ensures
        final(state).state() == old(state).state(),
        r == fee_token_of::<S, T>(old(state).state(), *tx, fee_payer, spec, *at),
{
    match tx.fee_token() {
        Some(token) => {
            return Ok(token);
        },
        None => {},
    }
    match set_token(tx, fee_payer, at) {
        Some(token) => {
            return Ok(token);
        },
        None => {},
    }
    match state.read_user_token(spec, fee_payer) {
        Ok(token) => {
            if !token.is_zero() {
                return Ok(token);
            }
        },
        Err(err) => {
            return Err(TokenError::State(err));
        },
    }
    match called_token(tx, fee_payer) {
        Some(token) => match is_valid_fee_token(state, spec, token) {
            Ok(valid) => {
                if valid {
                    return Ok(token);
                }
            },
            Err(err) => {
                return Err(err);
            },
        },
        None => {},
    }
    match swapped_token(tx, at) {
        Some(token) => match is_valid_fee_token(state, spec, token) {
            Ok(valid) => {
                if valid {
                    return Ok(token);
                }
            },
            Err(err) => {
                return Err(err);
            },
        },
        None => {},
    }
    Ok(default_fee_token())
}

/// Checks if the given TIP-20 token has the currency US dollar.
pub fn is_tip20_usd<S: TempoStateAccess>(state: &mut S, spec: TempoHardfork, fee_token: Address) -> (r: Result<
    bool,
    TokenError<S::Error>,
>)
    ensures
        final(state).state() == old(state).state(),
        match S::currency_slot(old(state).state(), spec, fee_token) {
            Ok(slot) => r == Ok::<bool, TokenError<S::Error>>(slot_is_usd(slot)),
            Err(err) => r == Err::<bool, TokenError<S::Error>>(TokenError::State(err)),
        },
{
    match state.read_currency_slot(spec, fee_token) {
        Ok(slot) => {
            if read_string_len(&slot) != 3 {
                return Ok(false);
            }
            Ok(is_usd(&read_short_string(&slot)))
        },
        Err(err) => Err(TokenError::State(err)),
    }
}

/// Ensures the given TIP-20 token uses the currency US dollar.
pub fn ensure_tip20_usd<S: TempoStateAccess>(state: &mut S, spec: TempoHardfork, fee_token: Address) -> (r: Result<
    (),
    CurrencyError<S::Error>,
>)
    ensures
        final(state).state() == old(state).state(),
        match S::currency_slot(old(state).state(), spec, fee_token) {
            Ok(slot) => if slot_is_usd(slot) {
                r is Ok
            } else {
                r is Err && refuses_currency(r->Err_0, fee_token, slot)
            },
            Err(err) => r == Err::<(), CurrencyError<S::Error>>(CurrencyError::State(err)),
        },
{
    let slot: U256 = match state.read_currency_slot(spec, fee_token) {
        Ok(slot) => slot,
        Err(err) => {
            return Err(CurrencyError::State(err));
        },
    };
    let len: usize = read_string_len(&slot);
    if len > MAX_SHORT_STRING {
        return Err(
            CurrencyError::Invalid(
                TempoInvalidTransaction::FeeTokenNotUsdCurrency {
                    address: fee_token,
                    currency: Currency::Oversized(len),
                },
            ),
        );
    }
    let code = read_short_string(&slot);
    if !is_usd(&code) {
        return Err(
            CurrencyError::Invalid(
                TempoInvalidTransaction::FeeTokenNotUsdCurrency {
                    address: fee_token,
                    currency: Currency::Code(code),
                },
            ),
        );
    }
    Ok(())
}

/// Checks if the given token can be used as a fee token.
pub fn is_valid_fee_token<S: TempoStateAccess>(state: &mut S, spec: TempoHardfork, fee_token: Address) -> (r: Result<
    bool,
    TokenError<S::Error>,
>)
    ensures
        final(state).state() == old(state).state(),
        r == usable(fee_token, S::currency_slot(old(state).state(), spec, fee_token)),
{
    if !is_tip20_prefix(&fee_token) {
        return Ok(false);
    }
    is_tip20_usd(state, spec, fee_token)
}

/// Checks if a fee token is paused.
pub fn is_fee_token_paused<S: TempoStateAccess>(state: &mut S, spec: TempoHardfork, fee_token: Address) -> (r: Result<
    bool,
    TokenError<S::Error>,
>)
    ensures
        final(state).state() == old(state).state(),
        r == (if tip20_prefixed(fee_token) {
            answer(S::paused(old(state).state(), spec, fee_token))
        } else {
            Err(TokenError::InvalidToken)
        }),
{
    if !is_tip20_prefix(&fee_token) {
        return Err(TokenError::InvalidToken);
    }
    match state.read_paused(spec, fee_token) {
        Ok(paused) => Ok(paused),
        Err(err) => Err(TokenError::State(err)),
    }
}

/// Checks if the fee payer can transfer the fee token to the fee manager.
///
/// From T1C on both must be authorized; before it was enough that the policy of the token lets
/// the fee payer send.
pub fn can_fee_payer_transfer<S: TempoStateAccess>(
    state: &mut S,
    fee_token: Address,
    fee_payer: Address,
    spec: TempoHardfork,
    at: &SystemAddresses,
) -> (r: Result<bool, TokenError<S::Error>>)
    ensures
        final(state).state() == old(state).state(),
        r == payer_may_transfer::<S>(old(state).state(), fee_token, fee_payer, spec, *at),
{
    if !is_tip20_prefix(&fee_token) {
        return Err(TokenError::InvalidToken);
    }
    if spec.includes(TempoHardfork::T1C) {
        match state.read_may_transfer(spec, fee_token, fee_payer, at.tip_fee_manager) {
            Ok(may) => Ok(may),
            Err(err) => Err(TokenError::State(err)),
        }
    } else {
        match state.read_policy(spec, fee_token) {
            Ok(policy_id) => match state.read_may_send(spec, policy_id, fee_payer) {
                Ok(may) => Ok(may),
                Err(err) => Err(TokenError::State(err)),
            },
            Err(err) => Err(TokenError::State(err)),
        }
    }
}

/// Returns the balance of the given token for the given account.
pub fn get_token_balance<S: TempoStateAccess>(state: &mut S, token: Address, account: Address, spec: TempoHardfork) -> (r:
    Result<U256, TokenError<S::Error>>)
    ensures
        final(state).state() == old(state).state(),
        r == (if tip20_prefixed(token) {
            answer(S::balance(old(state).state(), spec, token, account))
        } else {
            Err(TokenError::InvalidToken)
        }),
{
    if !is_tip20_prefix(&token) {
        return Err(TokenError::InvalidToken);
    }
    match state.read_balance(spec, token, account) {
        Ok(balance) => Ok(balance),
        Err(err) => Err(TokenError::State(err)),
    }
}

/// Whether the fee payer can transfer the fee token to the fee manager.
pub open spec fn payer_may_transfer<S: TempoStateAccess>(
    s: S::State,
    fee_token: Address,
    fee_payer: Address,
    spec: TempoHardfork,
    at: SystemAddresses,
) -> Result<bool, TokenError<S::Error>> {
    if !tip20_prefixed(fee_token) {
        Err(TokenError::InvalidToken)
    } else if spec.place() >= TempoHardfork::T1C.place() {
        answer(S::may_transfer(s, spec, fee_token, fee_payer, at.tip_fee_manager))
    } else {
        match S::policy(s, spec, fee_token) {
            Ok(policy_id) => answer(S::may_send(s, spec, policy_id, fee_payer)),
            Err(err) => Err(TokenError::State(err)),
        }
    }
}

fn set_token<T: TempoTx>(tx: &T, fee_payer: Address, at: &SystemAddresses) -> (r: Option<Address>)
    ensures
        r == token_being_set(
            tx.spec_is_aa(),
            tx.spec_calls(),
            tx.spec_caller(),
            fee_payer,
            *at,
        ),
{
    if tx.is_aa() || fee_payer != tx.caller() || tx.call_count() == 0 {
        return None;
    }
    let (kind, input) = tx.call(0);
    match kind {
        TxKind::Call(to) => {
            if to == at.tip_fee_manager {
                set_user_token_call(input.as_slice())
            } else {
                None
            }
        },
        TxKind::Create => None,
    }
}

fn called_token<T: TempoTx>(tx: &T, fee_payer: Address) -> (r: Option<Address>)
    ensures
        r == token_being_called(tx.spec_is_aa(), tx.spec_calls(), tx.spec_caller(), fee_payer),
{
    let count: usize = tx.call_count();
    if count == 0 || (tx.is_aa() && fee_payer != tx.caller()) {
        return None;
    }
    let (kind, _) = tx.call(0);
    let to: Address = match kind {
        TxKind::Call(to) => to,
        TxKind::Create => {
            return None;
        },
    };
    let mut i: usize = 0;
    while i < count
        invariant
            count == tx.spec_calls().len(),
            i <= count,
            forall|j: int| 0 <= j < i ==> infers(#[trigger] tx.spec_calls()[j], to),
            !(tx.spec_is_aa() && fee_payer != tx.spec_caller()),
            count > 0,
            tx.spec_calls()[0].0 == TxKind::Call(to),
        decreases count - i,
    {
        let (kind, input) = tx.call(i);
        let same: bool = match kind {
            TxKind::Call(other) => other == to,
            TxKind::Create => false,
        };
        if !(same && is_tip20_fee_inference_call(input.as_slice())) {
            assert(!infers(tx.spec_calls()[i as int], to));
            return None;
        }
        i = i + 1;
    }
    Some(to)
}

fn swapped_token<T: TempoTx>(tx: &T, at: &SystemAddresses) -> (r: Option<Address>)
    ensures
        r == token_being_swapped(tx.spec_is_aa(), tx.spec_calls(), *at),
{
    let count: usize = tx.call_count();
    if count == 0 {
        return None;
    }
    let (kind, input) = tx.call(0);
    match kind {
        TxKind::Call(to) => {
            if to == at.stablecoin_dex && (!tx.is_aa() || count == 1) {
                match swap_call(input.as_slice(), SWAP_EXACT_AMOUNT_IN) {
                    Some(token) => Some(token),
                    None => swap_call(input.as_slice(), SWAP_EXACT_AMOUNT_OUT),
                }
            } else {
                None
            }
        },
        TxKind::Create => None,
    }
}

/// A fee token that the transaction names is the one it pays with, whatever else holds.
pub proof fn law_named_token_wins<S: TempoStateAccess, T: TempoTx>(
    s: S::State,
    tx: T,
    fee_payer: Address,
    spec: TempoHardfork,
    at: SystemAddresses,
)
    requires
        tx.spec_fee_token() is Some,
    ensures
        fee_token_of::<S, T>(s, tx, fee_payer, spec, at) == Ok::<Address, TokenError<S::Error>>(
            tx.spec_fee_token()->0,
        ),
{
}

/// A fee token that is only inferred from calls is always a TIP-20 token in US dollars, or the
/// default.
pub proof fn law_inferred_token_is_usable<S: TempoStateAccess>(
    s: S::State,
    spec: TempoHardfork,
    called: Option<Address>,
    swapped: Option<Address>,
)
    requires
        token_by_calls::<S>(s, spec, called, swapped) is Ok,
    ensures
        ({
            let token = token_by_calls::<S>(s, spec, called, swapped)->Ok_0;
            token == spec_default_fee_token() || usable(token, S::currency_slot(s, spec, token))
                == Ok::<bool, TokenError<S::Error>>(true)
        }),
{
}

/// A sponsored account-abstraction transaction never pays in a token that is inferred from the
/// token it calls.
pub proof fn law_sponsor_is_not_charged_by_inference(
    calls: Seq<CallModel>,
    caller: Address,
    fee_payer: Address,
)
    requires
        fee_payer != caller,
    ensures
        token_being_called(true, calls, caller, fee_payer) is None,
{
}

} // verus!
