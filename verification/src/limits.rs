//! Limits on the fields of account-abstraction transactions that the pool enforces.
use crate::error::TempoPoolTransactionError;
use crate::transaction::{
    AccessListItem, Call, CallScope, KeyAuthorization, SelectorRule, TempoPooledTransaction,
    TempoTransaction,
};
use vstd::prelude::*;

verus! {

/// Maximum number of calls per account-abstraction transaction.
pub const MAX_AA_CALLS: usize = 32;

/// Maximum size of input data per call in bytes.
pub const MAX_CALL_INPUT_SIZE: usize = 131_072;

/// Maximum number of accounts in the access list.
pub const MAX_ACCESS_LIST_ACCOUNTS: usize = 256;

/// Maximum number of storage keys per account in the access list.
pub const MAX_STORAGE_KEYS_PER_ACCOUNT: usize = 256;

/// Maximum total number of storage keys across all accounts in the access list.
pub const MAX_ACCESS_LIST_STORAGE_KEYS_TOTAL: usize = 2048;

/// Maximum number of token limits in a key authorization.
pub const MAX_TOKEN_LIMITS: usize = 256;

/// Maximum number of call scopes per account key.
pub const MAX_KEYCHAIN_CALL_SCOPES: usize = 64;

/// Maximum number of selector rules per call scope.
pub const MAX_KEYCHAIN_SELECTOR_RULES_PER_SCOPE: usize = 64;

/// Maximum number of recipients per selector rule.
pub const MAX_KEYCHAIN_RECIPIENTS_PER_SELECTOR: usize = 64;

/// The first call from `i` on whose input is too long.
pub open spec fn first_long_call(calls: Seq<Call>, i: int) -> Option<int>
    decreases calls.len() - i,
{
    if i < 0 || i >= calls.len() {
        None
    } else if calls[i].input@.len() > MAX_CALL_INPUT_SIZE {
        Some(i)
    } else {
        first_long_call(calls, i + 1)
    }
}

/// The first account from `i` on with too many storage keys.
pub open spec fn first_crowded_account(accounts: Seq<AccessListItem>, i: int) -> Option<int>
    decreases accounts.len() - i,
{
    if i < 0 || i >= accounts.len() {
        None
    } else if accounts[i].storage_keys@.len() > MAX_STORAGE_KEYS_PER_ACCOUNT {
        Some(i)
    } else {
        first_crowded_account(accounts, i + 1)
    }
}

/// The number of storage keys of all accounts.
pub open spec fn storage_keys(accounts: Seq<AccessListItem>) -> nat
    decreases accounts.len(),
{
    if accounts.len() == 0 {
        0
    } else {
        storage_keys(accounts.drop_last()) + accounts.last().storage_keys@.len()
    }
}

/// How an account-abstraction transaction breaks the limits on calls.
pub open spec fn calls_breach(calls: Seq<Call>) -> Option<TempoPoolTransactionError> {
    if calls.len() > MAX_AA_CALLS {
        Some(
            TempoPoolTransactionError::TooManyCalls {
                count: calls.len() as usize,
                max_allowed: MAX_AA_CALLS,
            },
        )
    } else {
        match first_long_call(calls, 0) {
            Some(i) => Some(
                TempoPoolTransactionError::CallInputTooLarge {
                    call_index: i as usize,
                    size: calls[i].input@.len() as usize,
                    max_allowed: MAX_CALL_INPUT_SIZE,
                },
            ),
            None => None,
        }
    }
}

/// How an account-abstraction transaction breaks the limits on its access list.
pub open spec fn access_list_breach(accounts: Seq<AccessListItem>) -> Option<
    TempoPoolTransactionError,
> {
    if accounts.len() > MAX_ACCESS_LIST_ACCOUNTS {
        Some(
            TempoPoolTransactionError::TooManyAccessListAccounts {
                count: accounts.len() as usize,
                max_allowed: MAX_ACCESS_LIST_ACCOUNTS,
            },
        )
    } else {
        match first_crowded_account(accounts, 0) {
            Some(i) => Some(
                TempoPoolTransactionError::TooManyStorageKeysPerAccount {
                    account_index: i as usize,
                    count: accounts[i].storage_keys@.len() as usize,
                    max_allowed: MAX_STORAGE_KEYS_PER_ACCOUNT,
                },
            ),
            None => if storage_keys(accounts) > MAX_ACCESS_LIST_STORAGE_KEYS_TOTAL {
                Some(
                    TempoPoolTransactionError::TooManyTotalStorageKeys {
                        count: storage_keys(accounts) as usize,
                        max_allowed: MAX_ACCESS_LIST_STORAGE_KEYS_TOTAL,
                    },
                )
            } else {
                None
            },
        }
    }
}

/// A rule admits too many recipients.
pub open spec fn crowded_rule(rule: SelectorRule) -> bool {
    rule.recipients@.len() > MAX_KEYCHAIN_RECIPIENTS_PER_SELECTOR
}

/// One of the rules admits too many recipients.
pub open spec fn has_crowded_rule(rules: Seq<SelectorRule>) -> bool {
    exists|i: int| 0 <= i < rules.len() && crowded_rule(#[trigger] rules[i])
}

/// How a call scope breaks the limits.
pub open spec fn scope_breach(scope: CallScope) -> Option<TempoPoolTransactionError> {
    if scope.selector_rules@.len() > MAX_KEYCHAIN_SELECTOR_RULES_PER_SCOPE {
        Some(TempoPoolTransactionError::Keychain("too many selector rules in call scope"))
    } else if has_crowded_rule(scope.selector_rules@) {
        Some(TempoPoolTransactionError::Keychain("too many recipients in selector rule"))
    } else {
        None
    }
}

/// How the first of the call scopes from `i` on that breaks the limits does so.
pub open spec fn scopes_breach(scopes: Seq<CallScope>, i: int) -> Option<TempoPoolTransactionError>
    decreases scopes.len() - i,
{
    if i < 0 || i >= scopes.len() {
        None
    } else if scope_breach(scopes[i]) is Some {
        scope_breach(scopes[i])
    } else {
        scopes_breach(scopes, i + 1)
    }
}

/// How a key authorization breaks the limits.
pub open spec fn authorization_breach(authorization: KeyAuthorization) -> Option<
    TempoPoolTransactionError,
> {
    if authorization.limits is Some && authorization.limits->0@.len() > MAX_TOKEN_LIMITS {
        Some(
            TempoPoolTransactionError::TooManyTokenLimits {
                count: authorization.limits->0@.len() as usize,
                max_allowed: MAX_TOKEN_LIMITS,
            },
        )
    } else {
        match authorization.allowed_calls {
            Some(scopes) => if scopes@.len() > MAX_KEYCHAIN_CALL_SCOPES {
                Some(
                    TempoPoolTransactionError::Keychain(
                        "too many call scopes in key authorization",
                    ),
                )
            } else {
                scopes_breach(scopes@, 0)
            },
            None => None,
        }
    }
}

/// How an account-abstraction transaction breaks the limits on its fields: by its calls first, by
/// its access list next, and then by its key authorization.
pub open spec fn field_breach(tx: TempoTransaction) -> Option<TempoPoolTransactionError> {
    if calls_breach(tx.calls@) is Some {
        calls_breach(tx.calls@)
    } else if access_list_breach(tx.access_list@) is Some {
        access_list_breach(tx.access_list@)
    } else {
        match tx.key_authorization {
            Some(authorization) => authorization_breach(authorization),
            None => None,
        }
    }
}

/// How a transaction breaks the limits on the fields of account-abstraction transactions.
pub open spec fn limits_breach(tx: TempoPooledTransaction) -> Option<TempoPoolTransactionError> {
    match tx.inner.aa {
        Some(aa) => field_breach(aa),
        None => None,
    }
}

/// What a check with this breach answers.
pub open spec fn checked(breach: Option<TempoPoolTransactionError>) -> Result<
    (),
    TempoPoolTransactionError,
> {
    match breach {
        Some(err) => Err(err),
        None => Ok(()),
    }
}

fn check_calls(calls: &Vec<Call>) -> (r: Result<(), TempoPoolTransactionError>)
    ensures
        r == checked(calls_breach(calls@)),
{
    if calls.len() > MAX_AA_CALLS {
        return Err(
            TempoPoolTransactionError::TooManyCalls {
                count: calls.len(),
                max_allowed: MAX_AA_CALLS,
            },
        );
    }
    let mut i: usize = 0;
    while i < calls.len()
        invariant
            i <= calls@.len() <= MAX_AA_CALLS,
            first_long_call(calls@, 0) == first_long_call(calls@, i as int),
        decreases calls@.len() - i,
    {
        if calls[i].input.len() > MAX_CALL_INPUT_SIZE {
            return Err(
                TempoPoolTransactionError::CallInputTooLarge {
                    call_index: i,
                    size: calls[i].input.len(),
                    max_allowed: MAX_CALL_INPUT_SIZE,
                },
            );
        }
        i = i + 1;
    }
    Ok(())
}

fn check_access_list(accounts: &Vec<AccessListItem>) -> (r: Result<(), TempoPoolTransactionError>)
    ensures
        r == checked(access_list_breach(accounts@)),
{
    if accounts.len() > MAX_ACCESS_LIST_ACCOUNTS {
        return Err(
            TempoPoolTransactionError::TooManyAccessListAccounts {
                count: accounts.len(),
                max_allowed: MAX_ACCESS_LIST_ACCOUNTS,
            },
        );
    }
    let mut total: usize = 0;
    let mut i: usize = 0;
    assert(accounts@.take(0) =~= Seq::empty());
    while i < accounts.len()
        invariant
            i <= accounts@.len() <= MAX_ACCESS_LIST_ACCOUNTS,
            first_crowded_account(accounts@, 0) == first_crowded_account(accounts@, i as int),
            total == storage_keys(accounts@.take(i as int)),
            total <= i * MAX_STORAGE_KEYS_PER_ACCOUNT,
        decreases accounts@.len() - i,
    {
        if accounts[i].storage_keys.len() > MAX_STORAGE_KEYS_PER_ACCOUNT {
            return Err(
                TempoPoolTransactionError::TooManyStorageKeysPerAccount {
                    account_index: i,
                    count: accounts[i].storage_keys.len(),
                    max_allowed: MAX_STORAGE_KEYS_PER_ACCOUNT,
                },
            );
        }
        proof {
            assert(accounts@.take(i + 1).drop_last() =~= accounts@.take(i as int));
        }
        total = total + accounts[i].storage_keys.len();
        i = i + 1;
    }
    assert(accounts@.take(i as int) =~= accounts@);
    if total > MAX_ACCESS_LIST_STORAGE_KEYS_TOTAL {
        return Err(
            TempoPoolTransactionError::TooManyTotalStorageKeys {
                count: total,
                max_allowed: MAX_ACCESS_LIST_STORAGE_KEYS_TOTAL,
            },
        );
    }
    Ok(())
}

fn check_scope(scope: &CallScope) -> (r: Result<(), TempoPoolTransactionError>)
    ensures
        r == checked(scope_breach(*scope)),
{
    if scope.selector_rules.len() > MAX_KEYCHAIN_SELECTOR_RULES_PER_SCOPE {
        return Err(TempoPoolTransactionError::Keychain("too many selector rules in call scope"));
    }
    let mut i: usize = 0;
    while i < scope.selector_rules.len()
        invariant
            i <= scope.selector_rules@.len() <= MAX_KEYCHAIN_SELECTOR_RULES_PER_SCOPE,
            forall|j: int| 0 <= j < i ==> !crowded_rule(#[trigger] scope.selector_rules@[j]),
        decreases scope.selector_rules@.len() - i,
    {
        if scope.selector_rules[i].recipients.len() > MAX_KEYCHAIN_RECIPIENTS_PER_SELECTOR {
            assert(crowded_rule(scope.selector_rules@[i as int]));
            return Err(
                TempoPoolTransactionError::Keychain("too many recipients in selector rule"),
            );
        }
        i = i + 1;
    }
    Ok(())
}

fn check_authorization(authorization: &KeyAuthorization) -> (r: Result<
    (),
    TempoPoolTransactionError,
>)
    ensures
        r == checked(authorization_breach(*authorization)),
{
    match &authorization.limits {
        Some(limits) => {
            if limits.len() > MAX_TOKEN_LIMITS {
                return Err(
                    TempoPoolTransactionError::TooManyTokenLimits {
                        count: limits.len(),
                        max_allowed: MAX_TOKEN_LIMITS,
                    },
                );
            }
        },
        None => {},
    }
    match &authorization.allowed_calls {
        Some(scopes) => {
            if scopes.len() > MAX_KEYCHAIN_CALL_SCOPES {
                return Err(
                    TempoPoolTransactionError::Keychain(
                        "too many call scopes in key authorization",
                    ),
                );
            }
            let mut i: usize = 0;
            while i < scopes.len()
                invariant
                    i <= scopes@.len() <= MAX_KEYCHAIN_CALL_SCOPES,
                    authorization.allowed_calls == Some(*scopes),
                    authorization.limits is Some ==> authorization.limits->0@.len()
                        <= MAX_TOKEN_LIMITS,
                    scopes_breach(scopes@, 0) == scopes_breach(scopes@, i as int),
                decreases scopes@.len() - i,
            {
                match check_scope(&scopes[i]) {
                    Ok(()) => {},
                    Err(err) => {
                        return Err(err);
                    },
                }
                i = i + 1;
            }
            Ok(())
        },
        None => Ok(()),
    }
}

/// Validates the limits on the fields of account-abstraction transactions: calls, access list, key
/// authorization.
///
/// These limits are enforced by the pool rather than by the transaction format, so that the format
/// stays flexible and peers that send bad transactions can be penalized.
pub fn ensure_aa_field_limits(transaction: &TempoPooledTransaction) -> (r: Result<
    (),
    TempoPoolTransactionError,
>)
    ensures
        r == checked(limits_breach(*transaction)),
{
    match &transaction.inner.aa {
        Some(tx) => {
            match check_calls(&tx.calls) {
                Ok(()) => {},
                Err(err) => {
                    return Err(err);
                },
            }
            match check_access_list(&tx.access_list) {
                Ok(()) => {},
                Err(err) => {
                    return Err(err);
                },
            }
            match &tx.key_authorization {
                Some(authorization) => check_authorization(authorization),
                None => Ok(()),
            }
        },
        None => Ok(()),
    }
}

/// A transaction breaks none of the limits exactly if each of its fields is within its own.
pub proof fn law_limits(tx: TempoTransaction)
    ensures
        calls_breach(tx.calls@) is None <==> {
            &&& tx.calls@.len() <= MAX_AA_CALLS
            &&& forall|i: int|
                0 <= i < tx.calls@.len() ==> (#[trigger] tx.calls@[i]).input@.len()
                    <= MAX_CALL_INPUT_SIZE
        },
        access_list_breach(tx.access_list@) is None <==> {
            &&& tx.access_list@.len() <= MAX_ACCESS_LIST_ACCOUNTS
            &&& forall|i: int|
                0 <= i < tx.access_list@.len() ==> (
                #[trigger] tx.access_list@[i]).storage_keys@.len() <= MAX_STORAGE_KEYS_PER_ACCOUNT
            &&& storage_keys(tx.access_list@) <= MAX_ACCESS_LIST_STORAGE_KEYS_TOTAL
        },
{
    lemma_first_long_call(tx.calls@, 0);
    lemma_first_crowded_account(tx.access_list@, 0);
}

proof fn lemma_first_long_call(calls: Seq<Call>, i: int)
    requires
        0 <= i <= calls.len(),
    ensures
        match first_long_call(calls, i) {
            Some(k) => i <= k < calls.len() && calls[k].input@.len() > MAX_CALL_INPUT_SIZE,
            None => forall|j: int|
                i <= j < calls.len() ==> (#[trigger] calls[j]).input@.len() <= MAX_CALL_INPUT_SIZE,
        },
    decreases calls.len() - i,
{
    if i < calls.len() {
        lemma_first_long_call(calls, i + 1);
    }
}

proof fn lemma_first_crowded_account(accounts: Seq<AccessListItem>, i: int)
    requires
        0 <= i <= accounts.len(),
    ensures
        match first_crowded_account(accounts, i) {
            Some(k) => i <= k < accounts.len() && accounts[k].storage_keys@.len()
                > MAX_STORAGE_KEYS_PER_ACCOUNT,
            None => forall|j: int|
                i <= j < accounts.len() ==> (#[trigger] accounts[j]).storage_keys@.len()
                    <= MAX_STORAGE_KEYS_PER_ACCOUNT,
        },
    decreases accounts.len() - i,
{
    if i < accounts.len() {
        lemma_first_crowded_account(accounts, i + 1);
    }
}

/// Every breach of a limit on calls, access list or token limits marks the transaction as a bad
/// one; a breach of the other limits of a key authorization does not.
pub proof fn law_breach_is_bad(tx: TempoTransaction)
    requires
        field_breach(tx) is Some,
    ensures
        field_breach(tx)->0.bad() == !(field_breach(tx)->0 is Keychain),
{
    match tx.key_authorization {
        Some(authorization) => match authorization.allowed_calls {
            Some(scopes) => {
                lemma_scopes_breach(scopes@, 0);
            },
            None => {},
        },
        None => {},
    }
}

proof fn lemma_scopes_breach(scopes: Seq<CallScope>, i: int)
    ensures
        scopes_breach(scopes, i) is Some ==> scopes_breach(scopes, i)->0 is Keychain,
    decreases scopes.len() - i,
{
    if 0 <= i < scopes.len() {
        lemma_scopes_breach(scopes, i + 1);
    }
}

} // verus!
