//! In which token a transaction pays its fee.
use crate::abi::{address_in_word, be_value, selector_of};
use crate::addresses::SystemAddresses;
use crate::error::Currency;
use crate::fee_token::{
    all_infer, answer, byte_of, fee_token_of, infers, payer_may_transfer, pow256,
    refuses_currency, short_string, slot_is_usd, string_len, token_being_called, usable, usd,
    CallModel, CurrencyError, TempoStateAccess, TempoTx, TempoTxEnv, TokenError,
};
use crate::hardfork::TempoHardfork;
use crate::primitives::{Address, U256};
use crate::transaction::{TempoTxEnvelope, TxKind};
use vstd::prelude::*;

verus! {

/// The call goes to the address, has the selector and has room for so many words of arguments.
pub open spec fn calls_with(call: CallModel, to: Address, selector: int, words: int) -> bool {
    &&& call.0 == TxKind::Call(to)
    &&& call.1.len() >= 4 + 32 * words
    &&& be_value(call.1.take(4)) == selector
}

/// The transaction sets the preference of its caller, who pays its fee, with its only or first
/// call. Account-abstraction transactions do not.
pub open spec fn sets_preference<T: TempoTx>(
    tx: T,
    fee_payer: Address,
    at: SystemAddresses,
) -> bool {
    &&& !tx.spec_is_aa()
    &&& fee_payer == tx.spec_caller()
    &&& tx.spec_calls().len() > 0
    &&& calls_with(tx.spec_calls()[0], at.tip_fee_manager, 0xe789_7444, 1)
}

/// The call is a transfer, a transfer with a memo or a distribution of rewards at the address.
pub open spec fn moves_token(call: CallModel, to: Address) -> bool {
    ||| calls_with(call, to, 0xa905_9cbb, 0)
    ||| calls_with(call, to, 0x9577_7d59, 0)
    ||| calls_with(call, to, 0x940a_4e45, 0)
}

/// All calls of the transaction move the token at the address, and its fee may be inferred from
/// that: nobody else sponsors an account-abstraction transaction.
pub open spec fn moves_only<T: TempoTx>(tx: T, fee_payer: Address, token: Address) -> bool {
    &&& tx.spec_calls().len() > 0
    &&& forall|i: int|
        0 <= i < tx.spec_calls().len() ==> moves_token(#[trigger] tx.spec_calls()[i], token)
    &&& tx.spec_is_aa() ==> fee_payer == tx.spec_caller()
}

/// The transaction swaps a token at the exchange: with its first call, which is the only one of an
/// account-abstraction transaction.
pub open spec fn swaps<T: TempoTx>(tx: T, at: SystemAddresses) -> bool {
    &&& tx.spec_calls().len() > 0
    &&& tx.spec_is_aa() ==> tx.spec_calls().len() == 1
    &&& calls_with(tx.spec_calls()[0], at.stablecoin_dex, 0xf885_6c0f, 4) || calls_with(
        tx.spec_calls()[0],
        at.stablecoin_dex,
        0xf012_2b75,
        4,
    )
}

/// The selector of call data is the integer that its first four bytes stand for.
proof fn lemma_selector(data: Seq<u8>)
    ensures
        data.len() >= 4 ==> 0 <= be_value(data.take(4)) < 0x1_0000_0000 && selector_of(data)
            == Some(be_value(data.take(4)) as u32),
{
    if data.len() >= 4 {
        let s = data.take(4);
        reveal_with_fuel(be_value, 5);
        assert(s.drop_last().drop_last().drop_last().drop_last() =~= Seq::empty());
    }
}

/// A preference that a transaction sets is used for the transaction itself, before the one that is
/// stored.
pub proof fn law_new_preference_wins<S: TempoStateAccess, T: TempoTx>(
    s: S::State,
    tx: T,
    fee_payer: Address,
    spec: TempoHardfork,
    at: SystemAddresses,
)
    requires
        tx.spec_fee_token() is None,
        sets_preference(tx, fee_payer, at),
    ensures
        fee_token_of::<S, T>(s, tx, fee_payer, spec, at) == Ok::<Address, TokenError<S::Error>>(
            address_in_word(tx.spec_calls()[0].1.skip(4), 0),
        ),
{
    lemma_selector(tx.spec_calls()[0].1);
}

/// The stored preference of the fee payer wins over everything that could be inferred from calls,
/// whatever they are, unless the transaction names a token or sets a preference. If it cannot be
/// read, there is no answer.
pub proof fn law_stored_preference_wins<S: TempoStateAccess, T: TempoTx>(
    s: S::State,
    tx: T,
    fee_payer: Address,
    spec: TempoHardfork,
    at: SystemAddresses,
)
    requires
        tx.spec_fee_token() is None,
        !sets_preference(tx, fee_payer, at),
    ensures
        S::user_token(s, spec, fee_payer) matches Ok(token) && !(token.hi == 0 && token.lo == 0)
            ==> fee_token_of::<S, T>(s, tx, fee_payer, spec, at) == Ok::<
            Address,
            TokenError<S::Error>,
        >(S::user_token(s, spec, fee_payer)->Ok_0),
        S::user_token(s, spec, fee_payer) matches Err(err) ==> fee_token_of::<S, T>(
            s,
            tx,
            fee_payer,
            spec,
            at,
        ) == Err::<Address, TokenError<S::Error>>(
            TokenError::State(S::user_token(s, spec, fee_payer)->Err_0),
        ),
{
    if tx.spec_calls().len() > 0 {
        lemma_selector(tx.spec_calls()[0].1);
    }
    if S::user_token(s, spec, fee_payer) is Ok {
        let token = S::user_token(s, spec, fee_payer)->Ok_0;
        lemma_zero_address(token);
    }
}

proof fn lemma_zero_address(a: Address)
    ensures
        crate::ordered::OrdKey::ord(a) == 0 <==> a.hi == 0 && a.lo == 0,
{
    let big = crate::primitives::two_128();
    let hi = a.hi as int;
    let lo = a.lo as int;
    assert(hi * big + lo == 0 <==> hi == 0 && lo == 0) by (nonlinear_arith)
        requires
            big > 0,
            hi >= 0,
            lo >= 0,
    ;
}

proof fn lemma_infers(call: CallModel, to: Address)
    ensures
        infers(call, to) <==> moves_token(call, to),
{
    lemma_selector(call.1);
}

proof fn lemma_called<T: TempoTx>(tx: T, fee_payer: Address)
    ensures
        match token_being_called(
            tx.spec_is_aa(),
            tx.spec_calls(),
            tx.spec_caller(),
            fee_payer,
        ) {
            Some(token) => moves_only(tx, fee_payer, token),
            None => forall|token: Address| !#[trigger] moves_only(tx, fee_payer, token),
        },
{
    let calls = tx.spec_calls();
    assert forall|token: Address| #[trigger] moves_only(tx, fee_payer, token) implies
        token_being_called(tx.spec_is_aa(), calls, tx.spec_caller(), fee_payer) == Some(token) by {
        assert forall|i: int| 0 <= i < calls.len() implies infers(#[trigger] calls[i], token) by {
            lemma_infers(calls[i], token);
        }
        assert(all_infer(calls, token));
        assert(calls[0].0 == TxKind::Call(token)) by {
            assert(infers(calls[0], token));
        }
    }
    match token_being_called(tx.spec_is_aa(), calls, tx.spec_caller(), fee_payer) {
        Some(token) => {
            assert forall|i: int| 0 <= i < calls.len() implies moves_token(
                #[trigger] calls[i],
                token,
            ) by {
                lemma_infers(calls[i], token);
            }
        },
        None => {},
    }
}

/// Without a named token and without a preference, a transaction that does nothing but move one
/// token pays in that token, if it can be used for fees.
pub proof fn law_moved_token_pays<S: TempoStateAccess, T: TempoTx>(
    s: S::State,
    tx: T,
    fee_payer: Address,
    spec: TempoHardfork,
    at: SystemAddresses,
    token: Address,
)
    requires
        tx.spec_fee_token() is None,
        !sets_preference(tx, fee_payer, at),
        S::user_token(s, spec, fee_payer) == Ok::<Address, S::Error>(Address { hi: 0, lo: 0 }),
        moves_only(tx, fee_payer, token),
        usable(token, S::currency_slot(s, spec, token)) == Ok::<bool, TokenError<S::Error>>(true),
    ensures
        fee_token_of::<S, T>(s, tx, fee_payer, spec, at) == Ok::<Address, TokenError<S::Error>>(
            token,
        ),
{
    if tx.spec_calls().len() > 0 {
        lemma_selector(tx.spec_calls()[0].1);
    }
    lemma_zero_address(Address { hi: 0, lo: 0 });
    lemma_called(tx, fee_payer);
    let called = token_being_called(
        tx.spec_is_aa(),
        tx.spec_calls(),
        tx.spec_caller(),
        fee_payer,
    );
    assert(called == Some(token)) by {
        assert(tx.spec_calls()[0].0 == TxKind::Call(token)) by {
            assert(moves_token(tx.spec_calls()[0], token));
        }
        if called is Some {
            assert(moves_token(tx.spec_calls()[0], called->0));
        }
    }
}

/// Without a named token and without a preference, a transaction that does not move one usable
/// token and swaps at the exchange pays in the token that it gives, if it can be used for fees, and
/// in the default token otherwise. So does one that neither moves nor swaps.
pub proof fn law_swapped_token_pays<S: TempoStateAccess, T: TempoTx>(
    s: S::State,
    tx: T,
    fee_payer: Address,
    spec: TempoHardfork,
    at: SystemAddresses,
)
    requires
        tx.spec_fee_token() is None,
        !sets_preference(tx, fee_payer, at),
        S::user_token(s, spec, fee_payer) == Ok::<Address, S::Error>(Address { hi: 0, lo: 0 }),
        forall|token: Address| #[trigger]
            moves_only(tx, fee_payer, token) ==> usable(token, S::currency_slot(s, spec, token))
                == Ok::<bool, TokenError<S::Error>>(false),
    ensures
        ({
            let found = fee_token_of::<S, T>(s, tx, fee_payer, spec, at);
            let token = address_in_word(tx.spec_calls()[0].1.skip(4), 0);
            let default_token = Address { hi: 0x20C0_0000, lo: 0 };
            &&& !swaps(tx, at) ==> found == Ok::<Address, TokenError<S::Error>>(default_token)
            &&& swaps(tx, at) ==> match usable(token, S::currency_slot(s, spec, token)) {
                Ok(true) => found == Ok::<Address, TokenError<S::Error>>(token),
                Ok(false) => found == Ok::<Address, TokenError<S::Error>>(default_token),
                Err(err) => found == Err::<Address, TokenError<S::Error>>(err),
            }
        }),
{
    if tx.spec_calls().len() > 0 {
        lemma_selector(tx.spec_calls()[0].1);
    }
    lemma_zero_address(Address { hi: 0, lo: 0 });
    lemma_called(tx, fee_payer);
    let called = token_being_called(
        tx.spec_is_aa(),
        tx.spec_calls(),
        tx.spec_caller(),
        fee_payer,
    );
    if called is Some {
        assert(moves_only(tx, fee_payer, called->0));
    }
}

/// A token can be used for fees exactly if it is a TIP-20 token whose currency is the US dollar.
pub proof fn law_usable<E>(token: Address, slot: Result<U256, E>)
    ensures
        !(token.hi == 0x20C0_0000 && token.lo <= u64::MAX) ==> usable(token, slot) == Ok::<
            bool,
            TokenError<E>,
        >(false),
        token.hi == 0x20C0_0000 && token.lo <= u64::MAX ==> match slot {
            Ok(word) => usable(token, slot) == Ok::<bool, TokenError<E>>(slot_is_usd(word)),
            Err(err) => usable(token, slot) == Err::<bool, TokenError<E>>(TokenError::State(err)),
        },
{
}

/// The currency is the US dollar exactly if its slot holds the three letters in its first bytes and
/// twice their number in its last.
pub proof fn law_us_dollar(slot: U256)
    ensures
        slot_is_usd(slot) <==> slot@ % 256 == 6 && byte_of(slot, 0) == 0x55 && byte_of(slot, 1)
            == 0x53 && byte_of(slot, 2) == 0x44,
{
    let s = short_string(slot);
    if slot@ % 256 == 6 {
        assert(slot@ % 2 == 0);
        assert(string_len(slot) == 3);
        if byte_of(slot, 0) == 0x55 && byte_of(slot, 1) == 0x53 && byte_of(slot, 2) == 0x44 {
            assert(s =~= usd());
        }
    }
    if slot_is_usd(slot) {
        assert(s[0] == 0x55 && s[1] == 0x53 && s[2] == 0x44);
        if slot@ % 2 == 1 {
            // a word of seven holds no letters
            assert(slot@ == 7);
            assert(slot.hi == 0) by {
                let big = crate::primitives::two_128();
                let hi = slot.hi as int;
                let lo = slot.lo as int;
                assert(hi == 0) by (nonlinear_arith)
                    requires
                        hi * big + lo == 7,
                        big > 7,
                        hi >= 0,
                        lo >= 0,
                ;
            }
            reveal_with_fuel(pow256, 16);
            assert(pow256(15) > 0);
            assert(0int / pow256(15) == 0) by (nonlinear_arith)
                requires
                    pow256(15) > 0,
            ;
        } else {
            assert(slot@ % 256 == 6 || slot@ % 256 == 7);
        }
    }
}

/// A word of a slot is read from its highest byte down.
pub proof fn law_first_byte_is_the_highest(slot: U256)
    ensures
        byte_of(slot, 15) == slot.hi % 256,
        byte_of(slot, 31) == slot.lo % 256,
        byte_of(slot, 14) == slot.hi / 256 % 256,
{
    reveal_with_fuel(pow256, 3);
    assert(slot.lo as int / 1 == slot.lo as int);
    assert(slot.hi as int / 1 == slot.hi as int);
}

/// From T1C on the fee payer and the fee manager must both be let by the policy of the token; before
/// it was enough that the fee payer may send. Nothing but a TIP-20 token is asked.
pub proof fn law_who_may_pay<S: TempoStateAccess>(
    s: S::State,
    token: Address,
    fee_payer: Address,
    spec: TempoHardfork,
    at: SystemAddresses,
)
    ensures
        ({
            let found = payer_may_transfer::<S>(s, token, fee_payer, spec, at);
            let is_token = token.hi == 0x20C0_0000 && token.lo <= u64::MAX;
            let early = spec == TempoHardfork::Genesis || spec == TempoHardfork::T0 || spec
                == TempoHardfork::T1 || spec == TempoHardfork::T1A || spec == TempoHardfork::T1B;
            &&& !is_token ==> found == Err::<bool, TokenError<S::Error>>(TokenError::InvalidToken)
            &&& is_token && !early ==> match S::may_transfer(
                s,
                spec,
                token,
                fee_payer,
                at.tip_fee_manager,
            ) {
                Ok(may) => found == Ok::<bool, TokenError<S::Error>>(may),
                Err(err) => found == Err::<bool, TokenError<S::Error>>(TokenError::State(err)),
            }
            &&& is_token && early ==> match S::policy(s, spec, token) {
                Ok(policy) => match S::may_send(s, spec, policy, fee_payer) {
                    Ok(may) => found == Ok::<bool, TokenError<S::Error>>(may),
                    Err(err) => found == Err::<bool, TokenError<S::Error>>(TokenError::State(err)),
                },
                Err(err) => found == Err::<bool, TokenError<S::Error>>(TokenError::State(err)),
            }
        }),
{
}

/// What was read is answered as it was read.
pub proof fn law_answers<T, E>(value: T, err: E)
    ensures
        answer(Ok::<T, E>(value)) == Ok::<T, TokenError<E>>(value),
        answer(Err::<T, E>(err)) == Err::<T, TokenError<E>>(TokenError::State(err)),
{
}

/// The calls of an account-abstraction transaction are those it lists; any other transaction is one
/// call. A fee token is what the transaction names, and the caller its sender.
pub proof fn law_calls_of_a_transaction(tx: TempoTxEnvelope, i: int)
    ensures
        tx.spec_is_aa() == tx.aa is Some,
        tx.spec_fee_token() == tx.fee_token,
        tx.spec_caller() == tx.sender,
        tx.aa is None ==> tx.spec_calls().len() == 1 && tx.spec_calls()[0] == (
            tx.kind,
            tx.input@,
        ),
        tx.aa is Some ==> tx.spec_calls().len() == tx.aa->0.calls@.len() && (0 <= i
            < tx.aa->0.calls@.len() ==> tx.spec_calls()[i] == (
            tx.aa->0.calls@[i].to,
            tx.aa->0.calls@[i].input@,
        )),
{
}

/// The same holds of a transaction as the execution environment sees it.
pub proof fn law_calls_in_the_environment(tx: TempoTxEnv, i: int)
    ensures
        tx.spec_is_aa() == tx.aa_calls is Some,
        tx.spec_fee_token() == tx.fee_token,
        tx.spec_caller() == tx.caller,
        tx.aa_calls is None ==> tx.spec_calls().len() == 1 && tx.spec_calls()[0] == (
            tx.kind,
            tx.data@,
        ),
        tx.aa_calls is Some ==> tx.spec_calls().len() == tx.aa_calls->0@.len() && (0 <= i
            < tx.aa_calls->0@.len() ==> tx.spec_calls()[i] == (
            tx.aa_calls->0@[i].to,
            tx.aa_calls->0@[i].input@,
        )),
{
}

/// Where the currency of the one token that is moved cannot be read, there is no answer.
pub proof fn law_unreadable_currency<S: TempoStateAccess, T: TempoTx>(
    s: S::State,
    tx: T,
    fee_payer: Address,
    spec: TempoHardfork,
    at: SystemAddresses,
    token: Address,
)
    requires
        tx.spec_fee_token() is None,
        !sets_preference(tx, fee_payer, at),
        S::user_token(s, spec, fee_payer) == Ok::<Address, S::Error>(Address { hi: 0, lo: 0 }),
        moves_only(tx, fee_payer, token),
        usable(token, S::currency_slot(s, spec, token)) is Err,
    ensures
        fee_token_of::<S, T>(s, tx, fee_payer, spec, at) == Err::<Address, TokenError<S::Error>>(
            usable(token, S::currency_slot(s, spec, token))->Err_0,
        ),
{
    if tx.spec_calls().len() > 0 {
        lemma_selector(tx.spec_calls()[0].1);
    }
    lemma_zero_address(Address { hi: 0, lo: 0 });
    lemma_called(tx, fee_payer);
    let called = token_being_called(
        tx.spec_is_aa(),
        tx.spec_calls(),
        tx.spec_caller(),
        fee_payer,
    );
    assert(called == Some(token)) by {
        assert(tx.spec_calls()[0].0 == TxKind::Call(token)) by {
            assert(moves_token(tx.spec_calls()[0], token));
        }
        if called is Some {
            assert(moves_token(tx.spec_calls()[0], called->0));
        }
    }
}

/// A token that is refused for its currency is told with its currency: its code as it stands in the
/// slot, or, if it is too long to stand there, its length.
pub proof fn law_refused_currency<E>(err: CurrencyError<E>, token: Address, slot: U256)
    requires
        refuses_currency(err, token, slot),
    ensures
        err is Invalid,
        err->Invalid_0 is FeeTokenNotUsdCurrency,
        err->Invalid_0->FeeTokenNotUsdCurrency_address == token,
        err->Invalid_0->currency matches Currency::Code(code) ==> {
            &&& code@.len() <= 31
            &&& slot@ % 2 == 0 ==> code@.len() == slot@ % 256 / 2
            &&& forall|i: int| 0 <= i < code@.len() ==> #[trigger] code@[i] == byte_of(slot, i)
        },
        err->Invalid_0->currency matches Currency::Oversized(len) ==> {
            &&& len > 31
            &&& slot@ % 2 == 0 ==> len == slot@ % 256 / 2
            &&& slot@ % 2 == 1 && slot@ / 2 <= usize::MAX ==> len == slot@ / 2
        },
{
}

} // verus!
