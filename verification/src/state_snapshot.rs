//! A state held in memory.
use crate::fee_token::TempoStateAccess;
use crate::hardfork::TempoHardfork;
use crate::primitives::{Address, U256};
use vstd::prelude::*;

verus! {

/// What is stored of a token.
#[derive(Debug, Clone, Copy, PartialEq, Eq, Structural)]
pub struct TokenState {
    /// The word in the slot of the currency code.
    pub currency_slot: U256,
    /// Whether the token is paused.
    pub paused: bool,
    /// The transfer policy.
    pub policy_id: u64,
}

/// The state could not be read.
#[derive(Debug, Clone, Copy, PartialEq, Eq, Structural)]
pub struct Unreadable;

/// A state held in memory, with what the questions about tokens need.
#[derive(Debug, Clone)]
pub struct StateSnapshot {
    /// Whether the state can be read.
    pub readable: bool,
    /// The fee tokens that accounts chose.
    pub user_tokens: Vec<(Address, Address)>,
    /// The tokens.
    pub tokens: Vec<(Address, TokenState)>,
    /// The accounts that a policy lets send and receive.
    pub allowed: Vec<(u64, Address)>,
    /// The balances of accounts in tokens.
    pub balances: Vec<(Address, Address, U256)>,
}

/// What a snapshot holds.
pub struct SnapshotModel {
    /// Whether the state can be read.
    pub readable: bool,
    /// The fee tokens that accounts chose.
    pub user_tokens: Seq<(Address, Address)>,
    /// The tokens.
    pub tokens: Seq<(Address, TokenState)>,
    /// The accounts that a policy lets send and receive.
    pub allowed: Seq<(u64, Address)>,
    /// The balances of accounts in tokens.
    pub balances: Seq<(Address, Address, U256)>,
}

/// What was stored last under an address.
pub open spec fn last_of<V>(list: Seq<(Address, V)>, address: Address) -> Option<V>
    decreases list.len(),
{
    if list.len() == 0 {
        None
    } else if list.last().0 == address {
        Some(list.last().1)
    } else {
        last_of(list.drop_last(), address)
    }
}

/// The balance that was stored last for an account in a token, or zero.
pub open spec fn last_balance(
    list: Seq<(Address, Address, U256)>,
    token: Address,
    account: Address,
) -> U256
    decreases list.len(),
{
    if list.len() == 0 {
        U256 { hi: 0, lo: 0 }
    } else if list.last().0 == token && list.last().1 == account {
        list.last().2
    } else {
        last_balance(list.drop_last(), token, account)
    }
}

/// A token of which nothing is stored: no currency, not paused, the first policy.
pub open spec fn blank_token() -> TokenState {
    TokenState { currency_slot: U256 { hi: 0, lo: 0 }, paused: false, policy_id: 0 }
}

/// The state of a token.
pub open spec fn token_state(s: SnapshotModel, token: Address) -> TokenState {
    match last_of(s.tokens, token) {
        Some(state) => state,
        None => blank_token(),
    }
}

/// The value, if the state can be read.
pub open spec fn if_readable<T>(s: SnapshotModel, value: T) -> Result<T, Unreadable> {
    if s.readable {
        Ok(value)
    } else {
        Err(Unreadable)
    }
}

fn find_last<V: Copy>(list: &Vec<(Address, V)>, address: Address) -> (r: Option<V>)
    ensures
        r == last_of(list@, address),
{
    let mut i: usize = list.len();
    assert(list@.take(i as int) =~= list@);
    while i > 0
        invariant
            i <= list@.len(),
            last_of(list@, address) == last_of(list@.take(i as int), address),
        decreases i,
    {
        proof {
            assert(list@.take(i as int).drop_last() =~= list@.take(i - 1));
            assert(list@.take(i as int).last() == list@[i - 1]);
        }
        if list[i - 1].0 == address {
            return Some(list[i - 1].1);
        }
        i = i - 1;
    }
    None
}

impl StateSnapshot {
    fn find_token(&self, token: Address) -> (r: TokenState)
        ensures
            r == token_state(self.state(), token),
    {
        match find_last(&self.tokens, token) {
            Some(state) => state,
            None => TokenState {
                currency_slot: U256 { hi: 0, lo: 0 },
                paused: false,
                policy_id: 0,
            },
        }
    }

    fn is_allowed(&self, policy_id: u64, account: Address) -> (r: bool)
        ensures
            r == self.allowed@.contains((policy_id, account)),
    {
        let mut i: usize = 0;
        while i < self.allowed.len()
            invariant
                i <= self.allowed@.len(),
                forall|j: int| 0 <= j < i ==> self.allowed@[j] != (policy_id, account),
            decreases self.allowed@.len() - i,
        {
            if self.allowed[i].0 == policy_id && self.allowed[i].1 == account {
                assert(self.allowed@[i as int] == (policy_id, account));
                return true;
            }
            i = i + 1;
        }
        false
    }

    fn find_balance(&self, token: Address, account: Address) -> (r: U256)
        ensures
            r == last_balance(self.balances@, token, account),
    {
        let mut i: usize = self.balances.len();
        let ghost list = self.balances@;
        assert(list.take(i as int) =~= list);
        while i > 0
            invariant
                list == self.balances@,
                i <= list.len(),
                last_balance(list, token, account) == last_balance(
                    list.take(i as int),
                    token,
                    account,
                ),
            decreases i,
        {
            proof {
                assert(list.take(i as int).drop_last() =~= list.take(i - 1));
                assert(list.take(i as int).last() == list[i - 1]);
            }
            if self.balances[i - 1].0 == token && self.balances[i - 1].1 == account {
                return self.balances[i - 1].2;
            }
            i = i - 1;
        }
        U256 { hi: 0, lo: 0 }
    }
}

impl TempoStateAccess for StateSnapshot {
    type Error = Unreadable;

    type State = SnapshotModel;

    open spec fn state(&self) -> SnapshotModel {
        SnapshotModel {
            readable: self.readable,
            user_tokens: self.user_tokens@,
            tokens: self.tokens@,
            allowed: self.allowed@,
            balances: self.balances@,
        }
    }

    open spec fn user_token(s: SnapshotModel, spec: TempoHardfork, account: Address) -> Result<
        Address,
        Unreadable,
    > {
        if_readable(
            s,
            match last_of(s.user_tokens, account) {
                Some(token) => token,
                None => Address { hi: 0, lo: 0 },
            },
        )
    }

    open spec fn currency_slot(s: SnapshotModel, spec: TempoHardfork, token: Address) -> Result<
        U256,
        Unreadable,
    > {
        if_readable(s, token_state(s, token).currency_slot)
    }

    open spec fn paused(s: SnapshotModel, spec: TempoHardfork, token: Address) -> Result<
        bool,
        Unreadable,
    > {
        if_readable(s, token_state(s, token).paused)
    }

    open spec fn policy(s: SnapshotModel, spec: TempoHardfork, token: Address) -> Result<
        u64,
        Unreadable,
    > {
        if_readable(s, token_state(s, token).policy_id)
    }

    open spec fn may_send(
        s: SnapshotModel,
        spec: TempoHardfork,
        policy_id: u64,
        account: Address,
    ) -> Result<bool, Unreadable> {
        if_readable(s, s.allowed.contains((policy_id, account)))
    }

    /// The policy of the token must let both accounts take part.
    open spec fn may_transfer(
        s: SnapshotModel,
        spec: TempoHardfork,
        token: Address,
        from: Address,
        to: Address,
    ) -> Result<bool, Unreadable> {
        let policy_id = token_state(s, token).policy_id;
        if_readable(s, s.allowed.contains((policy_id, from)) && s.allowed.contains((policy_id, to)))
    }

    open spec fn balance(
        s: SnapshotModel,
        spec: TempoHardfork,
        token: Address,
        account: Address,
    ) -> Result<U256, Unreadable> {
        if_readable(s, last_balance(s.balances, token, account))
    }

    fn read_user_token(&mut self, spec: TempoHardfork, account: Address) -> (r: Result<
        Address,
        Unreadable,
    >) {
        if !self.readable {
            return Err(Unreadable);
        }
        match find_last(&self.user_tokens, account) {
            Some(token) => Ok(token),
            None => Ok(Address { hi: 0, lo: 0 }),
        }
    }

    fn read_currency_slot(&mut self, spec: TempoHardfork, token: Address) -> (r: Result<
        U256,
        Unreadable,
    >) {
        if !self.readable {
            return Err(Unreadable);
        }
        Ok(self.find_token(token).currency_slot)
    }

    fn read_paused(&mut self, spec: TempoHardfork, token: Address) -> (r: Result<
        bool,
        Unreadable,
    >) {
        if !self.readable {
            return Err(Unreadable);
        }
        Ok(self.find_token(token).paused)
    }

    fn read_policy(&mut self, spec: TempoHardfork, token: Address) -> (r: Result<
        u64,
        Unreadable,
    >) {
        if !self.readable {
            return Err(Unreadable);
        }
        Ok(self.find_token(token).policy_id)
    }

    fn read_may_send(&mut self, spec: TempoHardfork, policy_id: u64, account: Address) -> (r: Result<
        bool,
        Unreadable,
    >) {
        if !self.readable {
            return Err(Unreadable);
        }
        Ok(self.is_allowed(policy_id, account))
    }

    fn read_may_transfer(
        &mut self,
        spec: TempoHardfork,
        token: Address,
        from: Address,
        to: Address,
    ) -> (r: Result<bool, Unreadable>) {
        if !self.readable {
            return Err(Unreadable);
        }
        let policy_id: u64 = self.find_token(token).policy_id;
        Ok(self.is_allowed(policy_id, from) && self.is_allowed(policy_id, to))
    }

    fn read_balance(&mut self, spec: TempoHardfork, token: Address, account: Address) -> (r: Result<
        U256,
        Unreadable,
    >) {
        if !self.readable {
            return Err(Unreadable);
        }
        Ok(self.find_balance(token, account))
    }
}

/// What is stored under an address is what is read there, until something else is stored there.
pub proof fn law_last_stored_is_read<V>(
    list: Seq<(Address, V)>,
    address: Address,
    value: V,
    other: Address,
)
    ensures
        last_of(list.push((address, value)), address) == Some(value),
        other != address ==> last_of(list.push((address, value)), other) == last_of(list, other),
        last_of(Seq::<(Address, V)>::empty(), address) is None,
{
    assert(list.push((address, value)).drop_last() =~= list);
}

/// The balance that is stored for an account in a token is what is read for it, until another one is
/// stored; before that it is zero.
pub proof fn law_last_balance_is_read(
    list: Seq<(Address, Address, U256)>,
    token: Address,
    account: Address,
    amount: U256,
    other_token: Address,
    other: Address,
)
    ensures
        last_balance(list.push((token, account, amount)), token, account) == amount,
        other_token != token || other != account ==> last_balance(
            list.push((token, account, amount)),
            other_token,
            other,
        ) == last_balance(list, other_token, other),
        last_balance(Seq::empty(), token, account)@ == 0,
{
    assert(list.push((token, account, amount)).drop_last() =~= list);
}

} // verus!
