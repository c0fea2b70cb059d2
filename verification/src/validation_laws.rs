//! Which transactions are admitted.
use crate::error::{
    EVMError, FeePaymentError, InvalidPoolTransactionError, InvalidTransaction,
    TempoInvalidTransaction, TempoPoolTransactionError,
};
use crate::hardfork::TempoHardfork;
use crate::limits::{
    access_list_breach, calls_breach, field_breach, first_crowded_account,
    first_long_call, law_limits, scope_breach, scopes_breach, storage_keys,
};
use crate::pending::InvalidTransactionError;
use crate::primitives::{lemma_word, two_256, Address};
use crate::transaction::{
    AccessListItem, Call, CallScope, TempoPooledTransaction, TempoTransaction,
};
use crate::validator::{
    admission_refusal, all_authorities, evm_refusal, listed, nonce_refusal, recovered, refusal,
    time_breach, validated, InnerOutcome, Refusal, Replies, TempoTransactionValidator,
    TransactionValidationOutcome, ValidationFailure,
};
use vstd::prelude::*;

verus! {

/// The calls are no more than 32, each with no more than 128 kibibytes of input.
pub open spec fn calls_fit(tx: TempoTransaction) -> bool {
    &&& tx.calls@.len() <= 32
    &&& forall|i: int|
        0 <= i < tx.calls@.len() ==> (#[trigger] tx.calls@[i]).input@.len() <= 131_072
}

/// The access list has no more than 256 accounts, each with no more than 256 storage keys, and no
/// more than 2048 storage keys in all.
pub open spec fn access_list_fits(tx: TempoTransaction) -> bool {
    &&& tx.access_list@.len() <= 256
    &&& forall|i: int|
        0 <= i < tx.access_list@.len() ==> (#[trigger] tx.access_list@[i]).storage_keys@.len()
            <= 256
    &&& storage_keys(tx.access_list@) <= 2048
}

/// The call scope has no more than 64 selector rules, each with no more than 64 recipients.
pub open spec fn scope_fits(scope: CallScope) -> bool {
    &&& scope.selector_rules@.len() <= 64
    &&& forall|i: int|
        0 <= i < scope.selector_rules@.len() ==> (
        #[trigger] scope.selector_rules@[i]).recipients@.len() <= 64
}

/// A key authorization, if there is one, has no more than 256 token limits and no more than 64 call
/// scopes, each within its limits.
pub open spec fn authorization_fits(tx: TempoTransaction) -> bool {
    tx.key_authorization matches Some(authorization) ==> {
        &&& authorization.limits matches Some(limits) ==> limits@.len() <= 256
        &&& authorization.allowed_calls matches Some(scopes) ==> {
            &&& scopes@.len() <= 64
            &&& forall|i: int| 0 <= i < scopes@.len() ==> scope_fits(#[trigger] scopes@[i])
        }
    }
}

proof fn lemma_scopes(scopes: Seq<CallScope>, i: int)
    requires
        0 <= i <= scopes.len(),
    ensures
        scopes_breach(scopes, i) is None <==> forall|j: int|
            i <= j < scopes.len() ==> scope_fits(#[trigger] scopes[j]),
    decreases scopes.len() - i,
{
    if i < scopes.len() {
        lemma_scopes(scopes, i + 1);
        let rules = scopes[i].selector_rules@;
        assert(scope_breach(scopes[i]) is None <==> scope_fits(scopes[i])) by {
            if scope_breach(scopes[i]) is None {
                assert forall|k: int| 0 <= k < rules.len() implies (
                #[trigger] rules[k]).recipients@.len() <= 64 by {
                    if rules[k].recipients@.len() > 64 {
                        assert(crate::limits::crowded_rule(rules[k]));
                    }
                }
            }
        }
    }
}

/// No limit is broken exactly if the calls, the access list and the key authorization are within
/// theirs.
pub proof fn law_field_limits(tx: TempoTransaction)
    ensures
        field_breach(tx) is None <==> calls_fit(tx) && access_list_fits(tx) && authorization_fits(
            tx,
        ),
        calls_breach(tx.calls@) is None <==> calls_fit(tx),
        access_list_breach(tx.access_list@) is None <==> access_list_fits(tx),
{
    law_limits(tx);
    match tx.key_authorization {
        Some(authorization) => match authorization.allowed_calls {
            Some(scopes) => {
                lemma_scopes(scopes@, 0);
            },
            None => {},
        },
        None => {},
    }
}

/// The storage keys of all accounts are counted, each list in full.
pub proof fn law_storage_keys(accounts: Seq<AccessListItem>, account: AccessListItem)
    ensures
        storage_keys(accounts.push(account)) == storage_keys(accounts)
            + account.storage_keys@.len(),
        storage_keys(Seq::<AccessListItem>::empty()) == 0,
{
    assert(accounts.push(account).drop_last() =~= accounts);
}

proof fn lemma_first_long(calls: Seq<Call>, i: int)
    requires
        0 <= i <= calls.len(),
    ensures
        first_long_call(calls, i) matches Some(k) ==> {
            &&& i <= k < calls.len()
            &&& calls[k].input@.len() > 131_072
            &&& forall|j: int| i <= j < k ==> (#[trigger] calls[j]).input@.len() <= 131_072
        },
    decreases calls.len() - i,
{
    if i < calls.len() {
        lemma_first_long(calls, i + 1);
    }
}

proof fn lemma_first_crowded(accounts: Seq<AccessListItem>, i: int)
    requires
        0 <= i <= accounts.len(),
    ensures
        first_crowded_account(accounts, i) matches Some(k) ==> {
            &&& i <= k < accounts.len()
            &&& accounts[k].storage_keys@.len() > 256
            &&& forall|j: int| i <= j < k ==> (#[trigger] accounts[j]).storage_keys@.len() <= 256
        },
    decreases accounts.len() - i,
{
    if i < accounts.len() {
        lemma_first_crowded(accounts, i + 1);
    }
}

/// A broken limit is told with what breaks it: the calls before the access list, the access list
/// before the key authorization, and of calls and accounts the first that is too large.
pub proof fn law_breach_is_told(tx: TempoTransaction)
    requires
        tx.calls@.len() <= usize::MAX,
        tx.access_list@.len() <= usize::MAX,
    ensures
        ({
            let told = field_breach(tx);
            &&& told is Some && !calls_fit(tx) ==> match told->0 {
                TempoPoolTransactionError::TooManyCalls { count, max_allowed } => count
                    == tx.calls@.len() && count > 32 && max_allowed == 32,
                TempoPoolTransactionError::CallInputTooLarge { call_index, size, max_allowed } => {
                    &&& tx.calls@.len() <= 32
                    &&& call_index < tx.calls@.len()
                    &&& max_allowed == 131_072
                    &&& tx.calls@[call_index as int].input@.len() > 131_072
                    &&& tx.calls@[call_index as int].input@.len() <= usize::MAX ==> size
                        == tx.calls@[call_index as int].input@.len()
                    &&& forall|j: int|
                        0 <= j < call_index ==> (#[trigger] tx.calls@[j]).input@.len() <= 131_072
                },
                _ => false,
            }
            &&& told is Some && calls_fit(tx) && !access_list_fits(tx) ==> match told->0 {
                TempoPoolTransactionError::TooManyAccessListAccounts { count, max_allowed } => count
                    == tx.access_list@.len() && count > 256 && max_allowed == 256,
                TempoPoolTransactionError::TooManyStorageKeysPerAccount {
                    account_index,
                    count,
                    max_allowed,
                } => {
                    &&& tx.access_list@.len() <= 256
                    &&& account_index < tx.access_list@.len()
                    &&& max_allowed == 256
                    &&& tx.access_list@[account_index as int].storage_keys@.len() > 256
                    &&& tx.access_list@[account_index as int].storage_keys@.len() <= usize::MAX
                        ==> count == tx.access_list@[account_index as int].storage_keys@.len()
                },
                TempoPoolTransactionError::TooManyTotalStorageKeys { count, max_allowed } => {
                    &&& tx.access_list@.len() <= 256
                    &&& storage_keys(tx.access_list@) > 2048
                    &&& max_allowed == 2048
                    &&& storage_keys(tx.access_list@) <= usize::MAX ==> count == storage_keys(
                        tx.access_list@,
                    )
                },
                _ => false,
            }
            &&& told is Some && calls_fit(tx) && access_list_fits(tx) ==> match told->0 {
                TempoPoolTransactionError::TooManyTokenLimits { count, max_allowed } => {
                    &&& tx.key_authorization->0.limits is Some
                    &&& tx.key_authorization->0.limits->0@.len() > 256
                    &&& max_allowed == 256
                },
                TempoPoolTransactionError::Keychain(_) => {
                    &&& tx.key_authorization is Some
                    &&& tx.key_authorization->0.limits matches Some(limits) ==> limits@.len() <= 256
                },
                _ => false,
            }
        }),
{
    law_field_limits(tx);
    lemma_first_long(tx.calls@, 0);
    lemma_first_crowded(tx.access_list@, 0);
    match tx.key_authorization {
        Some(authorization) => match authorization.allowed_calls {
            Some(scopes) => {
                lemma_keychain_breach(scopes@, 0);
            },
            None => {},
        },
        None => {},
    }
}

proof fn lemma_keychain_breach(scopes: Seq<CallScope>, i: int)
    ensures
        scopes_breach(scopes, i) is Some ==> scopes_breach(scopes, i)->0 is Keychain,
    decreases scopes.len() - i,
{
    if 0 <= i < scopes.len() {
        lemma_keychain_breach(scopes, i + 1);
    }
}

/// The transaction expires more than three seconds after the tip, if it expires, and becomes valid
/// no later than the configured time from now on, if it is not valid yet.
pub open spec fn times_fit(
    v: TempoTransactionValidator,
    tx: TempoTransaction,
    current_time: u64,
) -> bool {
    &&& tx.valid_before matches Some(t) ==> t > v.tip_timestamp + 3
    &&& tx.valid_after matches Some(t) ==> t <= current_time + v.aa_valid_after_max_secs
}

/// The bounds on the times are kept exactly if the transaction lives long enough and starts soon
/// enough; a breach is told with the bound.
pub proof fn law_time_bounds(v: TempoTransactionValidator, tx: TempoTransaction, current_time: u64)
    ensures
        time_breach(v, tx, current_time) is None <==> times_fit(v, tx, current_time),
        time_breach(v, tx, current_time) matches Some(err) ==> match err {
            TempoPoolTransactionError::InvalidValidBefore { valid_before, min_allowed } => {
                &&& tx.valid_before == Some(valid_before)
                &&& valid_before <= min_allowed
                &&& v.tip_timestamp + 3 <= u64::MAX ==> min_allowed == v.tip_timestamp + 3
            },
            TempoPoolTransactionError::InvalidValidAfter { valid_after, max_allowed } => {
                &&& tx.valid_after == Some(valid_after)
                &&& max_allowed == current_time + v.aa_valid_after_max_secs
                &&& valid_after > max_allowed
            },
            _ => false,
        },
{
}

/// A transaction is looked at further exactly if it is no system transaction, is not too long, and,
/// if it is an account-abstraction transaction, has no more authorizations than configured and
/// keeps the limits on its fields and times.
pub open spec fn admissible(
    v: TempoTransactionValidator,
    tx: TempoPooledTransaction,
    current_time: u64,
) -> bool {
    &&& !tx.inner.is_system_tx
    &&& tx.inner.encoded_length <= v.max_tx_input_bytes
    &&& tx.inner.aa matches Some(aa) ==> {
        &&& aa.tempo_authorization_list@.len() <= v.max_tempo_authorizations
        &&& calls_fit(aa)
        &&& access_list_fits(aa)
        &&& authorization_fits(aa)
        &&& times_fit(v, aa, current_time)
    }
}

/// Nothing but what makes a transaction inadmissible refuses it on its own. System transactions are
/// refused before all else, and then those that are too long.
pub proof fn law_admission(
    v: TempoTransactionValidator,
    tx: TempoPooledTransaction,
    current_time: u64,
)
    ensures
        admission_refusal(v, tx, current_time) is None <==> admissible(v, tx, current_time),
        tx.inner.is_system_tx ==> admission_refusal(v, tx, current_time) == Some(
            InvalidPoolTransactionError::Consensus(InvalidTransactionError::TxTypeNotSupported),
        ),
        !tx.inner.is_system_tx && tx.inner.encoded_length > v.max_tx_input_bytes
            ==> admission_refusal(v, tx, current_time) == Some(
            InvalidPoolTransactionError::OversizedData {
                size: tx.inner.encoded_length,
                limit: v.max_tx_input_bytes,
            },
        ),
        (!tx.inner.is_system_tx && tx.inner.encoded_length <= v.max_tx_input_bytes
            && tx.inner.aa is Some && tx.inner.aa->0.tempo_authorization_list@.len()
            > v.max_tempo_authorizations) ==> (admission_refusal(v, tx, current_time) matches Some(
            InvalidPoolTransactionError::Other(
                TempoPoolTransactionError::TooManyAuthorizations { count, max_allowed },
            ),
        ) && max_allowed == v.max_tempo_authorizations),
{
    match tx.inner.aa {
        Some(aa) => {
            law_field_limits(aa);
            law_time_bounds(v, aa, current_time);
        },
        None => {},
    }
}

/// The chain counts the nonce of the transaction under a nonce key of its own: neither the key of
/// the account nor, from T1 on, the largest one, which marks nonces that expire.
pub open spec fn counts_by_key(v: TempoTransactionValidator, tx: TempoPooledTransaction) -> bool {
    &&& tx.inner.aa is Some
    &&& tx.inner.aa->0.nonce_key@ != 0
    &&& tx.inner.aa->0.nonce_key@ == two_256() - 1 ==> v.hardfork == TempoHardfork::Genesis
        || v.hardfork == TempoHardfork::T0
}

/// The nonce key of the transaction is one of its own and has the prefix for subblocks.
pub open spec fn for_subblocks(tx: TempoPooledTransaction) -> bool {
    &&& tx.inner.aa is Some
    &&& tx.inner.aa->0.nonce_key@ != 0
    &&& tx.inner.aa->0.has_subblock_prefix
}

/// Only a nonce below the one that the chain holds under the key is refused: the one that is next
/// and every later one is not. A key for subblocks is refused whatever the nonce is. Where the
/// chain does not count by key, the nonce is not looked at here.
pub proof fn law_later_nonces_are_valid<E>(
    v: TempoTransactionValidator,
    tx: TempoPooledTransaction,
    state_nonce: Result<u64, E>,
)
    ensures
        nonce_refusal(v, tx, state_nonce) is None <==> !for_subblocks(tx) && (counts_by_key(v, tx)
            ==> state_nonce is Ok && state_nonce->Ok_0 <= tx.inner.nonce),
        for_subblocks(tx) ==> nonce_refusal(v, tx, state_nonce) == Some(
            Refusal::<E>::Invalid(
                InvalidPoolTransactionError::Other(TempoPoolTransactionError::SubblockNonceKey),
            ),
        ),
        !for_subblocks(tx) && counts_by_key(v, tx) && state_nonce is Ok && tx.inner.nonce
            < state_nonce->Ok_0 ==> nonce_refusal(v, tx, state_nonce) == Some(
            Refusal::<E>::Invalid(
                InvalidPoolTransactionError::Consensus(
                    InvalidTransactionError::NonceNotConsistent {
                        tx: tx.inner.nonce,
                        state: state_nonce->Ok_0,
                    },
                ),
            ),
        ),
        !for_subblocks(tx) && counts_by_key(v, tx) && state_nonce is Err ==> nonce_refusal(
            v,
            tx,
            state_nonce,
        ) == Some(Refusal::<E>::Failed(ValidationFailure::State(state_nonce->Err_0))),
{
}

/// A transaction is valid exactly if it is admissible, executes, is not signed by a key that expires
/// within three seconds of the tip, can have its fee swapped, is valid for the inner validator, has
/// no key for subblocks, and has a nonce that is not below the one the chain holds under its key.
pub proof fn law_valid_exactly_if<E>(
    v: TempoTransactionValidator,
    tx: TempoPooledTransaction,
    current_time: u64,
    replies: Replies<E>,
)
    ensures
        refusal(v, tx, current_time, replies) is None <==> {
            &&& admissible(v, tx, current_time)
            &&& replies.evm is Ok
            &&& replies.evm->Ok_0.key_expiry matches Some(t) ==> t > v.tip_timestamp + 3
            &&& replies.liquid == Ok::<bool, E>(true)
            &&& replies.inner is Valid
            &&& !for_subblocks(tx)
            &&& counts_by_key(v, tx) ==> replies.keyed_nonce is Ok && replies.keyed_nonce->Ok_0
                <= tx.inner.nonce
        },
{
    law_admission(v, tx, current_time);
    law_later_nonces_are_valid(v, tx, replies.keyed_nonce);
}

/// Why a transaction that passes on its own is refused: an error of the execution environment, a key
/// that expires too soon, a fee that cannot be swapped, or the answer of the inner validator, in
/// this order.
pub proof fn law_refusals_in_order<E>(
    v: TempoTransactionValidator,
    tx: TempoPooledTransaction,
    current_time: u64,
    replies: Replies<E>,
)
    requires
        admissible(v, tx, current_time),
    ensures
        ({
            let told = refusal(v, tx, current_time, replies);
            let expires_soon = replies.evm is Ok && replies.evm->Ok_0.key_expiry is Some
                && replies.evm->Ok_0.key_expiry->0 <= v.tip_timestamp + 3;
            &&& replies.evm matches Err(err) ==> told == Some(evm_refusal(err))
            &&& expires_soon ==> {
                &&& told is Some
                &&& told->0 is Invalid
                &&& told->0->Invalid_0 matches InvalidPoolTransactionError::Other(
                    TempoPoolTransactionError::AccessKeyExpired { expiry, min_allowed },
                ) && Some(expiry) == replies.evm->Ok_0.key_expiry && expiry <= min_allowed && (
                v.tip_timestamp + 3 <= u64::MAX ==> min_allowed == v.tip_timestamp + 3)
            }
            &&& replies.evm is Ok && !expires_soon && replies.liquid is Err ==> told == Some(
                Refusal::<E>::Failed(ValidationFailure::State(replies.liquid->Err_0)),
            )
            &&& replies.evm is Ok && !expires_soon && replies.liquid == Ok::<bool, E>(false) ==> {
                &&& told is Some
                &&& told->0 is Invalid
                &&& told->0->Invalid_0 matches InvalidPoolTransactionError::Other(
                    TempoPoolTransactionError::Evm(
                        TempoInvalidTransaction::CollectFeePreTx(
                            FeePaymentError::InsufficientAmmLiquidity { fee },
                        ),
                    ),
                ) && fee@ == tx.spec_fee_token_cost()
            }
            &&& replies.evm is Ok && !expires_soon && replies.liquid == Ok::<bool, E>(true)
                ==> match replies.inner {
                InnerOutcome::Invalid(err) => told == Some(Refusal::<E>::Invalid(err)),
                InnerOutcome::Failed(err) => told == Some(
                    Refusal::<E>::Failed(ValidationFailure::State(err)),
                ),
                InnerOutcome::Valid(_) => true,
            }
        }),
{
    law_admission(v, tx, current_time);
    lemma_word(tx.spec_fee_token_cost());
}

/// Lack of funds is told as such, with what the account has and what it would need; every other
/// reason against the transaction is handed on; and trouble of the execution environment itself is
/// no reason against the transaction.
pub proof fn law_execution_errors<E>(err: EVMError<E>)
    ensures
        match err {
            EVMError::Transaction(
                TempoInvalidTransaction::EthInvalidTransaction(
                    InvalidTransaction::LackOfFundForMaxFee { fee, balance },
                ),
            ) => evm_refusal(err) == Refusal::<E>::Invalid(
                InvalidPoolTransactionError::Consensus(
                    InvalidTransactionError::InsufficientFunds { got: balance, expected: fee },
                ),
            ),
            EVMError::Transaction(reason) => evm_refusal(err) == Refusal::<E>::Invalid(
                InvalidPoolTransactionError::Other(TempoPoolTransactionError::Evm(reason)),
            ),
            _ => evm_refusal(err) is Failed,
        },
{
}

/// The outcome of a validation hands back the transaction itself, with the fee token and the expiry
/// of its key that were found, unless they were known. If it is valid, the nonce is the one that
/// the chain holds under the key of the transaction, if it counts by key, and everything else is as
/// the inner validator found it.
pub proof fn law_outcome<E>(
    v: TempoTransactionValidator,
    tx: TempoPooledTransaction,
    current_time: u64,
    replies: Replies<E>,
    outcome: TransactionValidationOutcome<E>,
)
    requires
        validated(v, tx, current_time, replies, outcome),
    ensures
        match outcome {
            TransactionValidationOutcome::Valid { valid, transaction } => {
                let found = replies.inner->Valid_0;
                let context = replies.evm->Ok_0;
                &&& refusal(v, tx, current_time, replies) is None
                &&& transaction.inner == tx.inner
                &&& transaction.resolved_fee_token == (if tx.resolved_fee_token is Some {
                    tx.resolved_fee_token
                } else {
                    Some(context.fee_token)
                })
                &&& context.key_expiry is Some && tx.key_expiry is None ==> transaction.key_expiry
                    == Some(context.key_expiry)
                &&& context.key_expiry is None || tx.key_expiry is Some ==> transaction.key_expiry
                    == tx.key_expiry
                &&& valid.balance == found.balance
                &&& valid.bytecode_hash == found.bytecode_hash
                &&& valid.propagate == found.propagate
                &&& valid.state_nonce == (if counts_by_key(v, tx) {
                    replies.keyed_nonce->Ok_0
                } else {
                    found.state_nonce
                })
            },
            TransactionValidationOutcome::Invalid(transaction, err) => {
                &&& refusal(v, tx, current_time, replies) == Some(Refusal::<E>::Invalid(err))
                &&& transaction.inner == tx.inner
            },
            TransactionValidationOutcome::Error(hash, err) => {
                &&& refusal(v, tx, current_time, replies) == Some(Refusal::<E>::Failed(err))
                &&& hash == tx.inner.hash
            },
        },
{
}

proof fn lemma_recovered(list: Seq<Option<Address>>, a: Address)
    ensures
        recovered(list).contains(a) <==> list.contains(Some(a)),
        recovered(list).len() <= list.len(),
    decreases list.len(),
{
    if list.len() > 0 {
        let front = list.drop_last();
        let n = list.len() - 1;
        lemma_recovered(front, a);
        if list.contains(Some(a)) {
            let i = choose|i: int| 0 <= i < list.len() && list[i] == Some(a);
            if i < n {
                assert(front[i] == Some(a));
                let k = choose|k: int| 0 <= k < recovered(front).len() && recovered(front)[k] == a;
                assert(recovered(list)[k] == a);
            } else {
                assert(recovered(list)[recovered(front).len() as int] == a);
            }
        }
        if recovered(list).contains(a) {
            let k = choose|k: int| 0 <= k < recovered(list).len() && recovered(list)[k] == a;
            if k < recovered(front).len() {
                assert(recovered(front)[k] == a);
                let i = choose|i: int| 0 <= i < front.len() && front[i] == Some(a);
                assert(list[i] == Some(a));
            } else {
                assert(list[n] == Some(a));
            }
        }
    }
}

/// The authorities of a valid transaction are those that the inner validator found and those of the
/// transaction that could be recovered, no others; there is no list exactly if there are none of
/// the transaction and the inner validator had none.
pub proof fn law_authorities<E>(
    v: TempoTransactionValidator,
    tx: TempoPooledTransaction,
    current_time: u64,
    replies: Replies<E>,
    outcome: TransactionValidationOutcome<E>,
    a: Address,
)
    requires
        validated(v, tx, current_time, replies, outcome),
        outcome is Valid,
    ensures
        ({
            let all = outcome->valid.authorities;
            let found = replies.inner->Valid_0.authorities;
            let own = tx.inner.aa is Some && tx.inner.aa->0.tempo_authorization_list@.contains(
                Some(a),
            );
            &&& all is Some ==> (all->0@.contains(a) <==> own || (found is Some
                && found->0@.contains(a)))
            &&& all is None ==> found is None && !own
            &&& found is Some ==> all is Some && found->0@.len() <= all->0@.len()
                && all->0@.take(found->0@.len() as int) == found->0@
        }),
{
    let all = listed(outcome->valid.authorities);
    let found = listed(replies.inner->Valid_0.authorities);
    match tx.inner.aa {
        Some(aa) => {
            let own = recovered(aa.tempo_authorization_list@);
            lemma_recovered(aa.tempo_authorization_list@, a);
            assert(all == all_authorities(found, tx));
            if found is Some {
                let f = found->0;
                if own.len() > 0 {
                    let whole = f + own;
                    assert(whole.take(f.len() as int) =~= f);
                    if own.contains(a) {
                        let k = choose|k: int| 0 <= k < own.len() && own[k] == a;
                        assert(whole[f.len() + k] == a);
                    }
                    if f.contains(a) {
                        let k = choose|k: int| 0 <= k < f.len() && f[k] == a;
                        assert(whole[k] == a);
                    }
                    if whole.contains(a) {
                        let k = choose|k: int| 0 <= k < whole.len() && whole[k] == a;
                        if k < f.len() {
                            assert(f[k] == a);
                        } else {
                            assert(own[k - f.len()] == a);
                        }
                    }
                } else {
                    assert(f.take(f.len() as int) =~= f);
                }
            }
        },
        None => {
            if found is Some {
                assert(found->0.take(found->0.len() as int) =~= found->0);
            }
        },
    }
}

/// A transaction that executes is handed back with the fee token that was found, refused or not,
/// unless it had one. One that is refused before is handed back as it came.
pub proof fn law_refused_is_handed_back<E>(
    v: TempoTransactionValidator,
    tx: TempoPooledTransaction,
    current_time: u64,
    replies: Replies<E>,
    outcome: TransactionValidationOutcome<E>,
)
    requires
        validated(v, tx, current_time, replies, outcome),
        outcome is Invalid,
    ensures
        ({
            let back = outcome->Invalid_0;
            let executes = admissible(v, tx, current_time) && replies.evm is Ok;
            &&& !executes ==> back == tx
            &&& executes && tx.resolved_fee_token is None ==> back.resolved_fee_token == Some(
                replies.evm->Ok_0.fee_token,
            )
            &&& tx.resolved_fee_token is Some ==> back.resolved_fee_token == tx.resolved_fee_token
            &&& tx.key_expiry is Some ==> back.key_expiry == tx.key_expiry
            &&& back.total_cost == tx.total_cost && back.fee_balance_slot == tx.fee_balance_slot
        }),
{
    law_admission(v, tx, current_time);
}

} // verus!
