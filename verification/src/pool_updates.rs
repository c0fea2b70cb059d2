//! What a committed block changes that transactions of the pool depend on.
use crate::addresses::SystemAddresses;
use crate::keychain::{with_item, RevokedKeys, SpendingLimitUpdates};
use crate::ordered::SortedMap;
use crate::primitives::{Address, TxHash, B256};
use crate::sets::{add_member, all_sorted, no_members, no_sets, sets, with_member, SortedSet};
use crate::tip20::{is_tip20_prefix, tip20_prefixed};
use vstd::prelude::*;

verus! {

/// An event that a contract logged, as far as the pool depends on it.
#[derive(Debug, Clone, Copy, PartialEq, Eq, Structural)]
pub enum PoolEvent {
    /// A keychain key was revoked.
    KeyRevoked {
        /// The account that owns the key.
        account: Address,
        /// The key.
        public_key: Address,
    },
    /// The spending limit of a keychain key changed.
    SpendingLimitUpdated {
        /// The account that owns the key.
        account: Address,
        /// The key.
        public_key: Address,
        /// The token that is limited.
        token: Address,
    },
    /// A keychain key spent from its limit.
    AccessKeySpend {
        /// The account that owns the key.
        account: Address,
        /// The key.
        public_key: Address,
        /// The token that was spent.
        token: Address,
    },
    /// A key-authorization witness was burned.
    KeyAuthorizationWitnessBurned {
        /// The account that burned it.
        account: Address,
        /// The witness.
        witness: B256,
    },
    /// A validator chose the token in which it is paid.
    ValidatorTokenSet {
        /// The validator.
        validator: Address,
        /// The token.
        token: Address,
    },
    /// A user chose the token in which it pays.
    UserTokenSet {
        /// The user.
        user: Address,
    },
    /// An account was put on a blacklist or taken from it.
    BlacklistUpdated {
        /// The policy.
        policy_id: u64,
        /// The account.
        account: Address,
        /// Whether it is on the list now.
        restricted: bool,
    },
    /// An account was put on a whitelist or taken from it.
    WhitelistUpdated {
        /// The policy.
        policy_id: u64,
        /// The account.
        account: Address,
        /// Whether it is on the list now.
        allowed: bool,
    },
    /// A token was paused or unpaused.
    PauseStateUpdate {
        /// Whether it is paused now.
        is_paused: bool,
    },
    /// The transfer policy of a token changed.
    TransferPolicyUpdate,
    /// The quote token of a token changed.
    QuoteTokenUpdate,
    /// Tokens were transferred.
    Transfer {
        /// The account they came from.
        from: Address,
    },
}

/// A log entry: the contract that wrote it, and the event if it is one that the pool depends on.
#[derive(Debug, Clone, Copy, PartialEq, Eq, Structural)]
pub struct PoolLog {
    /// The contract.
    pub address: Address,
    /// The event.
    pub event: Option<PoolEvent>,
}

/// The events of the account keychain that the pool depends on.
#[derive(Debug, Clone, Copy, PartialEq, Eq, Structural)]
pub enum AccountKeychainPoolEvent {
    /// A key of the account was revoked.
    KeyRevoked(Address, Address),
    /// The limit of a key of the account for a token changed.
    SpendingLimitUpdated(Address, Address, Address),
    /// A key of the account spent from its limit for a token.
    AccessKeySpend(Address, Address, Address),
    /// The account burned a witness.
    KeyAuthorizationWitnessBurned(Address, B256),
}

impl AccountKeychainPoolEvent {
    /// The event of a log entry, if it is one of the account keychain.
    pub open spec fn decoded(log: PoolLog) -> Option<AccountKeychainPoolEvent> {
        match log.event {
            Some(PoolEvent::KeyRevoked { account, public_key }) => Some(
                AccountKeychainPoolEvent::KeyRevoked(account, public_key),
            ),
            Some(PoolEvent::SpendingLimitUpdated { account, public_key, token }) => Some(
                AccountKeychainPoolEvent::SpendingLimitUpdated(account, public_key, token),
            ),
            Some(PoolEvent::AccessKeySpend { account, public_key, token }) => Some(
                AccountKeychainPoolEvent::AccessKeySpend(account, public_key, token),
            ),
            Some(PoolEvent::KeyAuthorizationWitnessBurned { account, witness }) => Some(
                AccountKeychainPoolEvent::KeyAuthorizationWitnessBurned(account, witness),
            ),
            _ => None,
        }
    }

    /// Decodes only account-keychain events used by transaction-pool maintenance.
    pub fn decode(log: &PoolLog) -> (r: Option<AccountKeychainPoolEvent>)
        ensures
            r == Self::decoded(*log),
    {
        match log.event {
            Some(PoolEvent::KeyRevoked { account, public_key }) => Some(
                AccountKeychainPoolEvent::KeyRevoked(account, public_key),
            ),
            Some(PoolEvent::SpendingLimitUpdated { account, public_key, token }) => Some(
                AccountKeychainPoolEvent::SpendingLimitUpdated(account, public_key, token),
            ),
            Some(PoolEvent::AccessKeySpend { account, public_key, token }) => Some(
                AccountKeychainPoolEvent::AccessKeySpend(account, public_key, token),
            ),
            Some(PoolEvent::KeyAuthorizationWitnessBurned { account, witness }) => Some(
                AccountKeychainPoolEvent::KeyAuthorizationWitnessBurned(account, witness),
            ),
            _ => None,
        }
    }
}

/// The events of the fee manager that the pool depends on.
#[derive(Debug, Clone, Copy, PartialEq, Eq, Structural)]
pub enum FeeManagerPoolEvent {
    /// The validator chose the token in which it is paid.
    ValidatorTokenSet(Address, Address),
    /// The user chose the token in which it pays.
    UserTokenSet(Address),
}

impl FeeManagerPoolEvent {
    /// The event of a log entry, if it is one of the fee manager.
    pub open spec fn decoded(log: PoolLog) -> Option<FeeManagerPoolEvent> {
        match log.event {
            Some(PoolEvent::ValidatorTokenSet { validator, token }) => Some(
                FeeManagerPoolEvent::ValidatorTokenSet(validator, token),
            ),
            Some(PoolEvent::UserTokenSet { user }) => Some(FeeManagerPoolEvent::UserTokenSet(user)),
            _ => None,
        }
    }

    /// Decodes only fee-manager events used by transaction-pool maintenance.
    pub fn decode(log: &PoolLog) -> (r: Option<FeeManagerPoolEvent>)
        ensures
            r == Self::decoded(*log),
    {
        match log.event {
            Some(PoolEvent::ValidatorTokenSet { validator, token }) => Some(
                FeeManagerPoolEvent::ValidatorTokenSet(validator, token),
            ),
            Some(PoolEvent::UserTokenSet { user }) => Some(FeeManagerPoolEvent::UserTokenSet(user)),
            _ => None,
        }
    }
}

/// The events of the registry of transfer policies that the pool depends on.
#[derive(Debug, Clone, Copy, PartialEq, Eq, Structural)]
pub enum Tip403PoolEvent {
    /// The account was put on the blacklist of the policy, or taken from it.
    BlacklistUpdated(u64, Address, bool),
    /// The account was put on the whitelist of the policy, or taken from it.
    WhitelistUpdated(u64, Address, bool),
}

impl Tip403PoolEvent {
    /// The event of a log entry, if it is one of the registry of transfer policies.
    pub open spec fn decoded(log: PoolLog) -> Option<Tip403PoolEvent> {
        match log.event {
            Some(PoolEvent::BlacklistUpdated { policy_id, account, restricted }) => Some(
                Tip403PoolEvent::BlacklistUpdated(policy_id, account, restricted),
            ),
            Some(PoolEvent::WhitelistUpdated { policy_id, account, allowed }) => Some(
                Tip403PoolEvent::WhitelistUpdated(policy_id, account, allowed),
            ),
            _ => None,
        }
    }

    /// Decodes only TIP-403 registry events used by transaction-pool maintenance.
    pub fn decode(log: &PoolLog) -> (r: Option<Tip403PoolEvent>)
        ensures
            r == Self::decoded(*log),
    {
        match log.event {
            Some(PoolEvent::BlacklistUpdated { policy_id, account, restricted }) => Some(
                Tip403PoolEvent::BlacklistUpdated(policy_id, account, restricted),
            ),
            Some(PoolEvent::WhitelistUpdated { policy_id, account, allowed }) => Some(
                Tip403PoolEvent::WhitelistUpdated(policy_id, account, allowed),
            ),
            _ => None,
        }
    }
}

/// The events of TIP-20 tokens that the pool depends on.
#[derive(Debug, Clone, Copy, PartialEq, Eq, Structural)]
pub enum Tip20PoolEvent {
    /// The token was paused or unpaused.
    PauseStateUpdate(bool),
    /// The transfer policy of the token changed.
    TransferPolicyUpdate,
    /// The quote token of the token changed.
    QuoteTokenUpdate,
    /// Tokens were transferred from the account.
    Transfer(Address),
}

impl Tip20PoolEvent {
    /// The event of a log entry, if it is one of a TIP-20 token.
    pub open spec fn decoded(log: PoolLog) -> Option<Tip20PoolEvent> {
        match log.event {
            Some(PoolEvent::PauseStateUpdate { is_paused }) => Some(
                Tip20PoolEvent::PauseStateUpdate(is_paused),
            ),
            Some(PoolEvent::TransferPolicyUpdate) => Some(Tip20PoolEvent::TransferPolicyUpdate),
            Some(PoolEvent::QuoteTokenUpdate) => Some(Tip20PoolEvent::QuoteTokenUpdate),
            Some(PoolEvent::Transfer { from }) => Some(Tip20PoolEvent::Transfer(from)),
            _ => None,
        }
    }

    /// Decodes only TIP-20 events used by transaction-pool maintenance.
    pub fn decode(log: &PoolLog) -> (r: Option<Tip20PoolEvent>)
        ensures
            r == Self::decoded(*log),
    {
        match log.event {
            Some(PoolEvent::PauseStateUpdate { is_paused }) => Some(
                Tip20PoolEvent::PauseStateUpdate(is_paused),
            ),
            Some(PoolEvent::TransferPolicyUpdate) => Some(Tip20PoolEvent::TransferPolicyUpdate),
            Some(PoolEvent::QuoteTokenUpdate) => Some(Tip20PoolEvent::QuoteTokenUpdate),
            Some(PoolEvent::Transfer { from }) => Some(Tip20PoolEvent::Transfer(from)),
            _ => None,
        }
    }
}

/// What the updates of a block amount to.
#[verifier::ext_equal]
pub struct Updates {
    /// The transactions that have expired.
    pub expired_txs: Seq<TxHash>,
    /// The revoked keys of each account.
    pub revoked_keys: Map<Address, Seq<Address>>,
    /// The keys of each account whose limit for a token changed.
    pub spending_limit_changes: Map<Address, Seq<(Address, Option<Address>)>>,
    /// The token that each validator chose last.
    pub validator_token_changes: Map<Address, Address>,
    /// The users that chose a token.
    pub user_token_changes: Set<Address>,
    /// The accounts put on the blacklist of a policy.
    pub blacklist_additions: Seq<(u64, Address)>,
    /// The accounts taken from the whitelist of a policy.
    pub whitelist_removals: Seq<(u64, Address)>,
    /// The tokens that were paused or unpaused, in order.
    pub pause_events: Seq<(Address, bool)>,
    /// The tokens whose transfer policy changed.
    pub transfer_policy_updates: Set<Address>,
    /// The tokens whose quote token changed.
    pub quote_token_updates: Set<Address>,
    /// The accounts of each token that were debited.
    pub fee_balance_changes: Map<Address, Set<Address>>,
    /// The keys of each account that spent from their limit for a token.
    pub spending_limit_spends: Map<Address, Seq<(Address, Option<Address>)>>,
    /// The witnesses that each account burned.
    pub key_authorization_witness_burns: Map<Address, Set<B256>>,
}

/// No updates.
pub open spec fn no_updates() -> Updates {
    Updates {
        expired_txs: Seq::empty(),
        revoked_keys: Map::empty(),
        spending_limit_changes: Map::empty(),
        validator_token_changes: Map::empty(),
        user_token_changes: Set::empty(),
        blacklist_additions: Seq::empty(),
        whitelist_removals: Seq::empty(),
        pause_events: Seq::empty(),
        transfer_policy_updates: Set::empty(),
        quote_token_updates: Set::empty(),
        fee_balance_changes: Map::empty(),
        spending_limit_spends: Map::empty(),
        key_authorization_witness_burns: Map::empty(),
    }
}

/// The updates together with what an event of the account keychain says.
pub open spec fn with_keychain_event(u: Updates, event: AccountKeychainPoolEvent) -> Updates {
    match event {
        AccountKeychainPoolEvent::KeyRevoked(account, key) => Updates {
            revoked_keys: with_item(u.revoked_keys, account, key),
            ..u
        },
        AccountKeychainPoolEvent::SpendingLimitUpdated(account, key, token) => Updates {
            spending_limit_changes: with_item(
                u.spending_limit_changes,
                account,
                (key, Some(token)),
            ),
            ..u
        },
        AccountKeychainPoolEvent::AccessKeySpend(account, key, token) => Updates {
            spending_limit_spends: with_item(u.spending_limit_spends, account, (key, Some(token))),
            ..u
        },
        AccountKeychainPoolEvent::KeyAuthorizationWitnessBurned(account, witness) => Updates {
            key_authorization_witness_burns: with_member(
                u.key_authorization_witness_burns,
                account,
                witness,
            ),
            ..u
        },
    }
}

/// The updates together with what an event of the fee manager says. A later choice of a validator
/// takes the place of an earlier one.
pub open spec fn with_fee_manager_event(u: Updates, event: FeeManagerPoolEvent) -> Updates {
    match event {
        FeeManagerPoolEvent::ValidatorTokenSet(validator, token) => Updates {
            validator_token_changes: u.validator_token_changes.insert(validator, token),
            ..u
        },
        FeeManagerPoolEvent::UserTokenSet(user) => Updates {
            user_token_changes: u.user_token_changes.insert(user),
            ..u
        },
    }
}

/// The updates together with what an event of the registry of transfer policies says. Only what
/// restricts an account counts.
pub open spec fn with_tip403_event(u: Updates, event: Tip403PoolEvent) -> Updates {
    match event {
        Tip403PoolEvent::BlacklistUpdated(policy_id, account, restricted) => if restricted {
            Updates { blacklist_additions: u.blacklist_additions.push((policy_id, account)), ..u }
        } else {
            u
        },
        Tip403PoolEvent::WhitelistUpdated(policy_id, account, allowed) => if !allowed {
            Updates { whitelist_removals: u.whitelist_removals.push((policy_id, account)), ..u }
        } else {
            u
        },
    }
}

/// The updates together with what an event of a token says. Of a transfer only the debited account
/// counts: what an account receives makes no transaction invalid.
pub open spec fn with_tip20_event(u: Updates, token: Address, event: Tip20PoolEvent) -> Updates {
    match event {
        Tip20PoolEvent::PauseStateUpdate(is_paused) => Updates {
            pause_events: u.pause_events.push((token, is_paused)),
            ..u
        },
        Tip20PoolEvent::TransferPolicyUpdate => Updates {
            transfer_policy_updates: u.transfer_policy_updates.insert(token),
            ..u
        },
        Tip20PoolEvent::QuoteTokenUpdate => Updates {
            quote_token_updates: u.quote_token_updates.insert(token),
            ..u
        },
        Tip20PoolEvent::Transfer(from) => Updates {
            fee_balance_changes: with_member(u.fee_balance_changes, token, from),
            ..u
        },
    }
}

/// The updates together with what a log entry says. An event counts only if the contract that it
/// belongs to wrote it.
pub open spec fn with_log(u: Updates, log: PoolLog, at: SystemAddresses) -> Updates {
    if log.address == at.account_keychain {
        match AccountKeychainPoolEvent::decoded(log) {
            Some(event) => with_keychain_event(u, event),
            None => u,
        }
    } else if log.address == at.tip_fee_manager {
        match FeeManagerPoolEvent::decoded(log) {
            Some(event) => with_fee_manager_event(u, event),
            None => u,
        }
    } else if log.address == at.tip403_registry {
        match Tip403PoolEvent::decoded(log) {
            Some(event) => with_tip403_event(u, event),
            None => u,
        }
    } else if tip20_prefixed(log.address) {
        match Tip20PoolEvent::decoded(log) {
            Some(event) => with_tip20_event(u, log.address, event),
            None => u,
        }
    } else {
        u
    }
}

/// The updates together with what log entries say, one after the other.
pub open spec fn with_logs(u: Updates, logs: Seq<PoolLog>, at: SystemAddresses) -> Updates
    decreases logs.len(),
{
    if logs.len() == 0 {
        u
    } else {
        with_log(with_logs(u, logs.drop_last(), at), logs.last(), at)
    }
}

/// Aggregated block-level invalidation events for the transaction pool.
#[derive(Debug)]
pub struct TempoPoolUpdates {
    /// The transactions that have expired.
    pub expired_txs: Vec<TxHash>,
    /// Revoked keychain keys.
    pub revoked_keys: RevokedKeys,
    /// Spending limit changes: a transaction of that key that pays with that token may no longer
    /// be executable.
    pub spending_limit_changes: SpendingLimitUpdates,
    /// The token that each validator chose last.
    pub validator_token_changes: SortedMap<Address, Address>,
    /// The users that chose a token: a transaction of theirs that names no fee token may now
    /// resolve to another one.
    pub user_token_changes: SortedSet<Address>,
    /// The accounts put on the blacklist of a policy.
    pub blacklist_additions: Vec<(u64, Address)>,
    /// The accounts taken from the whitelist of a policy.
    pub whitelist_removals: Vec<(u64, Address)>,
    /// The tokens that were paused or unpaused, in order.
    pub pause_events: Vec<(Address, bool)>,
    /// The tokens whose transfer policy changed: it may forbid the fee payer now.
    pub transfer_policy_updates: SortedSet<Address>,
    /// The tokens whose quote token changed: it may break the route of the fee.
    pub quote_token_updates: SortedSet<Address>,
    /// The accounts of each token that were debited.
    pub fee_balance_changes: SortedMap<Address, SortedSet<Address>>,
    /// What keychain keys spent from their limits.
    pub spending_limit_spends: SpendingLimitUpdates,
    /// The key-authorization witnesses that each account burned.
    pub key_authorization_witness_burns: SortedMap<Address, SortedSet<B256>>,
}

impl View for TempoPoolUpdates {
    type V = Updates;

    open spec fn view(&self) -> Updates {
        Updates {
            expired_txs: self.expired_txs@,
            revoked_keys: self.revoked_keys@,
            spending_limit_changes: self.spending_limit_changes@,
            validator_token_changes: self.validator_token_changes@,
            user_token_changes: self.user_token_changes@.dom(),
            blacklist_additions: self.blacklist_additions@,
            whitelist_removals: self.whitelist_removals@,
            pause_events: self.pause_events@,
            transfer_policy_updates: self.transfer_policy_updates@.dom(),
            quote_token_updates: self.quote_token_updates@.dom(),
            fee_balance_changes: sets(self.fee_balance_changes@),
            spending_limit_spends: self.spending_limit_spends@,
            key_authorization_witness_burns: sets(self.key_authorization_witness_burns@),
        }
    }
}

impl TempoPoolUpdates {
    /// The maps are in order.
    pub open spec fn wf(&self) -> bool {
        &&& self.revoked_keys.wf()
        &&& self.spending_limit_changes.wf()
        &&& self.validator_token_changes.wf()
        &&& self.user_token_changes.wf()
        &&& self.transfer_policy_updates.wf()
        &&& self.quote_token_updates.wf()
        &&& self.fee_balance_changes.wf()
        &&& all_sorted(self.fee_balance_changes@)
        &&& self.spending_limit_spends.wf()
        &&& self.key_authorization_witness_burns.wf()
        &&& all_sorted(self.key_authorization_witness_burns@)
    }

    /// Creates new updates with nothing in them.
    pub fn new() -> (r: Self)
        ensures
            r.wf(),
            r@ == no_updates(),
    {
        let r = TempoPoolUpdates {
            expired_txs: Vec::new(),
            revoked_keys: RevokedKeys::new(),
            spending_limit_changes: SpendingLimitUpdates::new(),
            validator_token_changes: SortedMap::new(),
            user_token_changes: SortedMap::new(),
            blacklist_additions: Vec::new(),
            whitelist_removals: Vec::new(),
            pause_events: Vec::new(),
            transfer_policy_updates: SortedMap::new(),
            quote_token_updates: SortedMap::new(),
            fee_balance_changes: SortedMap::new(),
            spending_limit_spends: SpendingLimitUpdates::new(),
            key_authorization_witness_burns: SortedMap::new(),
        };
        assert(r@ =~= no_updates());
        r
    }

    /// Returns true if there are no updates to process.
    pub fn is_empty(&self) -> (r: bool)
        requires
            self.wf(),
        ensures
            r == (self@ == no_updates()),
    {
        let r = self.expired_txs.len() == 0 && self.revoked_keys.is_empty()
            && self.spending_limit_changes.is_empty() && self.validator_token_changes.is_empty()
            && no_members(&self.user_token_changes) && self.blacklist_additions.len() == 0
            && self.whitelist_removals.len() == 0 && self.pause_events.len() == 0 && no_members(
            &self.transfer_policy_updates,
        ) && no_members(&self.quote_token_updates) && no_sets(&self.fee_balance_changes)
            && self.spending_limit_spends.is_empty() && no_sets(
            &self.key_authorization_witness_burns,
        );
        proof {
            if r {
                assert(self@ =~= no_updates());
            }
        }
        r
    }

    /// There are updates for which the pool has to be scanned.
    pub open spec fn invalidating(u: Updates) -> bool {
        ||| u.revoked_keys != Map::<Address, Seq<Address>>::empty()
        ||| u.spending_limit_changes != Map::<Address, Seq<(Address, Option<Address>)>>::empty()
        ||| u.spending_limit_spends != Map::<Address, Seq<(Address, Option<Address>)>>::empty()
        ||| u.validator_token_changes != Map::<Address, Address>::empty()
        ||| u.user_token_changes != Set::<Address>::empty()
        ||| u.blacklist_additions.len() > 0
        ||| u.whitelist_removals.len() > 0
        ||| u.fee_balance_changes != Map::<Address, Set<Address>>::empty()
        ||| u.key_authorization_witness_burns != Map::<Address, Set<B256>>::empty()
    }

    /// Returns true if there are any invalidation events that require scanning the pool.
    pub fn has_invalidation_events(&self) -> (r: bool)
        requires
            self.wf(),
        ensures
            r == Self::invalidating(self@),
    {
        !self.revoked_keys.is_empty() || !self.spending_limit_changes.is_empty()
            || !self.spending_limit_spends.is_empty() || !self.validator_token_changes.is_empty()
            || !no_members(&self.user_token_changes) || self.blacklist_additions.len() > 0
            || self.whitelist_removals.len() > 0 || !no_sets(&self.fee_balance_changes) || !no_sets(
            &self.key_authorization_witness_burns,
        )
    }

    /// There are updates that concern transactions whose fee token is paused.
    pub open spec fn touches_paused(u: Updates) -> bool {
        ||| u.revoked_keys != Map::<Address, Seq<Address>>::empty()
        ||| u.spending_limit_changes != Map::<Address, Seq<(Address, Option<Address>)>>::empty()
        ||| u.spending_limit_spends != Map::<Address, Seq<(Address, Option<Address>)>>::empty()
        ||| u.key_authorization_witness_burns != Map::<Address, Set<B256>>::empty()
    }

    /// Returns true if there are any updates for which the transactions with a paused fee token
    /// have to be looked through.
    pub fn has_paused_invalidations(&self) -> (r: bool)
        requires
            self.wf(),
        ensures
            r == Self::touches_paused(self@),
    {
        !self.revoked_keys.is_empty() || !self.spending_limit_changes.is_empty()
            || !self.spending_limit_spends.is_empty() || !no_sets(
            &self.key_authorization_witness_burns,
        )
    }

    fn add_keychain_event(&mut self, event: AccountKeychainPoolEvent)
        requires
            old(self).wf(),
        ensures
            final(self).wf(),
            final(self)@ == with_keychain_event(old(self)@, event),
    {
        match event {
            AccountKeychainPoolEvent::KeyRevoked(account, key) => {
                self.revoked_keys.insert(account, key);
            },
            AccountKeychainPoolEvent::SpendingLimitUpdated(account, key, token) => {
                self.spending_limit_changes.insert(account, key, Some(token));
            },
            AccountKeychainPoolEvent::AccessKeySpend(account, key, token) => {
                self.spending_limit_spends.insert(account, key, Some(token));
            },
            AccountKeychainPoolEvent::KeyAuthorizationWitnessBurned(account, witness) => {
                add_member(&mut self.key_authorization_witness_burns, account, witness);
            },
        }
        assert(self@ =~= with_keychain_event(old(self)@, event));
    }

    fn add_fee_manager_event(&mut self, event: FeeManagerPoolEvent)
        requires
            old(self).wf(),
        ensures
            final(self).wf(),
            final(self)@ == with_fee_manager_event(old(self)@, event),
    {
        match event {
            FeeManagerPoolEvent::ValidatorTokenSet(validator, token) => {
                self.validator_token_changes.insert(validator, token);
            },
            FeeManagerPoolEvent::UserTokenSet(user) => {
                self.user_token_changes.insert(user, ());
            },
        }
        assert(self@ =~= with_fee_manager_event(old(self)@, event));
    }

    fn add_tip403_event(&mut self, event: Tip403PoolEvent)
        requires
            old(self).wf(),
        ensures
            final(self).wf(),
            final(self)@ == with_tip403_event(old(self)@, event),
    {
        match event {
            Tip403PoolEvent::BlacklistUpdated(policy_id, account, restricted) => {
                if restricted {
                    self.blacklist_additions.push((policy_id, account));
                }
            },
            Tip403PoolEvent::WhitelistUpdated(policy_id, account, allowed) => {
                if !allowed {
                    self.whitelist_removals.push((policy_id, account));
                }
            },
        }
        assert(self@ =~= with_tip403_event(old(self)@, event));
    }

    fn add_tip20_event(&mut self, token: Address, event: Tip20PoolEvent)
        requires
            old(self).wf(),
        ensures
            final(self).wf(),
            final(self)@ == with_tip20_event(old(self)@, token, event),
    {
        match event {
            Tip20PoolEvent::PauseStateUpdate(is_paused) => {
                self.pause_events.push((token, is_paused));
            },
            Tip20PoolEvent::TransferPolicyUpdate => {
                self.transfer_policy_updates.insert(token, ());
            },
            Tip20PoolEvent::QuoteTokenUpdate => {
                self.quote_token_updates.insert(token, ());
            },
            Tip20PoolEvent::Transfer(from) => {
                add_member(&mut self.fee_balance_changes, token, from);
            },
        }
        assert(self@ =~= with_tip20_event(old(self)@, token, event));
    }

    /// Takes note of what a log entry says.
    pub fn add_log(&mut self, log: &PoolLog, at: &SystemAddresses)
        requires
            old(self).wf(),
        ensures
            final(self).wf(),
            final(self)@ == with_log(old(self)@, *log, *at),
    {
        if log.address == at.account_keychain {
            match AccountKeychainPoolEvent::decode(log) {
                Some(event) => {
                    self.add_keychain_event(event);
                },
                None => {},
            }
        } else if log.address == at.tip_fee_manager {
            match FeeManagerPoolEvent::decode(log) {
                Some(event) => {
                    self.add_fee_manager_event(event);
                },
                None => {},
            }
        } else if log.address == at.tip403_registry {
            match Tip403PoolEvent::decode(log) {
                Some(event) => {
                    self.add_tip403_event(event);
                },
                None => {},
            }
        } else if is_tip20_prefix(&log.address) {
            match Tip20PoolEvent::decode(log) {
                Some(event) => {
                    self.add_tip20_event(log.address, event);
                },
                None => {},
            }
        }
    }

    /// Extracts pool updates from the log entries of a committed chain segment.
    pub fn from_chain(logs: &Vec<PoolLog>, at: &SystemAddresses) -> (r: Self)
        ensures
            r.wf(),
            r@ == with_logs(no_updates(), logs@, *at),
    {
        let mut updates = TempoPoolUpdates::new();
        let mut i: usize = 0;
        assert(logs@.take(0) =~= Seq::empty());
        while i < logs.len()
            invariant
                updates.wf(),
                i <= logs@.len(),
                updates@ == with_logs(no_updates(), logs@.take(i as int), *at),
            decreases logs@.len() - i,
        {
            proof {
                assert(logs@.take(i + 1).drop_last() =~= logs@.take(i as int));
            }
            updates.add_log(&logs[i], at);
            i = i + 1;
        }
        assert(logs@.take(i as int) =~= logs@);
        updates
    }
}

impl Default for TempoPoolUpdates {
    fn default() -> (r: Self)
        ensures
            r.wf(),
            r@ == no_updates(),
    {
        TempoPoolUpdates::new()
    }
}

/// An event that another contract than its own wrote changes nothing.
pub proof fn law_foreign_events_are_ignored(u: Updates, log: PoolLog, at: SystemAddresses)
    ensures
        log.address != at.account_keychain && log.address != at.tip_fee_manager && log.address
            != at.tip403_registry && !tip20_prefixed(log.address) ==> with_log(u, log, at) == u,
        log.address == at.account_keychain && AccountKeychainPoolEvent::decoded(log) is None
            ==> with_log(u, log, at) == u,
{
}

/// Log entries never tell which transactions expired: those are found by the clock.
pub proof fn law_logs_expire_nothing(u: Updates, logs: Seq<PoolLog>, at: SystemAddresses)
    ensures
        with_logs(u, logs, at).expired_txs == u.expired_txs,
    decreases logs.len(),
{
    if logs.len() > 0 {
        law_logs_expire_nothing(u, logs.drop_last(), at);
    }
}

/// Updates for which the transactions with a paused fee token have to be looked through are also
/// updates for which the pool has to be.
pub proof fn law_paused_invalidations_scan_the_pool(u: Updates)
    ensures
        TempoPoolUpdates::touches_paused(u) ==> TempoPoolUpdates::invalidating(u),
        TempoPoolUpdates::invalidating(u) ==> u != no_updates(),
{
}

} // verus!
