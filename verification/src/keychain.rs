//! Keychain keys that were revoked or whose limits changed, and the transactions they affect.
use crate::ordered::{
    ascending, entry_map, lemma_entry_in_map, lemma_entry_map_len, lemma_remove_at, SortedMap,
};
use crate::primitives::{Address, B256};
use vstd::prelude::*;

verus! {

/// The lists that a map of vectors holds.
pub open spec fn lists<T>(m: Map<Address, Vec<T>>) -> Map<Address, Seq<T>> {
    Map::new(|a: Address| m.contains_key(a), |a: Address| m[a]@)
}

/// The lists after an item was added to that of an account.
pub open spec fn with_item<T>(m: Map<Address, Seq<T>>, account: Address, item: T) -> Map<
    Address,
    Seq<T>,
> {
    if m.contains_key(account) {
        m.insert(account, m[account].push(item))
    } else {
        m.insert(account, seq![item])
    }
}

/// The number of items in the lists of all entries.
pub open spec fn items<T>(entries: Seq<(Address, Vec<T>)>) -> nat
    decreases entries.len(),
{
    if entries.len() == 0 {
        0
    } else {
        items(entries.drop_last()) + entries.last().1@.len()
    }
}

/// The number of items in all lists.
pub open spec fn total<T>(m: Map<Address, Seq<T>>) -> nat
    decreases m.dom().len(),
    when m.dom().finite()
{
    if m.dom().len() == 0 {
        0
    } else {
        let account = m.dom().choose();
        if m.contains_key(account) {
            total(m.remove(account)) + m[account].len()
        } else {
            0
        }
    }
}

/// The items of an account count among all.
proof fn lemma_total_remove<T>(m: Map<Address, Seq<T>>, account: Address)
    requires
        m.dom().finite(),
        m.contains_key(account),
    ensures
        total(m) == total(m.remove(account)) + m[account].len(),
    decreases m.dom().len(),
{
    let other = m.dom().choose();
    assert(m.dom().contains(account));
    assert(m.dom().len() > 0);
    assert(m.dom().contains(other));
    if other != account {
        lemma_total_remove(m.remove(other), account);
        lemma_total_remove(m.remove(account), other);
        assert(m.remove(other).remove(account) =~= m.remove(account).remove(other));
    }
}

/// Adding an item adds one to the number of all items.
pub proof fn law_item_is_counted<T>(m: Map<Address, Seq<T>>, account: Address, item: T)
    requires
        m.dom().finite(),
    ensures
        with_item(m, account, item).dom().finite(),
        total(with_item(m, account, item)) == total(m) + 1,
{
    let after = with_item(m, account, item);
    lemma_total_remove(after, account);
    if m.contains_key(account) {
        lemma_total_remove(m, account);
        assert(after.remove(account) =~= m.remove(account));
    } else {
        assert(after.remove(account) =~= m);
    }
}

/// The lists of entries in order hold as many items as their map.
proof fn lemma_items_total<T>(entries: Seq<(Address, Vec<T>)>)
    requires
        ascending(entries),
    ensures
        lists(entry_map(entries)).dom().finite(),
        items(entries) == total(lists(entry_map(entries))),
    decreases entries.len(),
{
    let m = lists(entry_map(entries));
    lemma_entry_map_len(entries);
    assert(m.dom() =~= entry_map(entries).dom());
    if entries.len() > 0 {
        let i = entries.len() - 1;
        let front = entries.drop_last();
        lemma_entry_in_map(entries, i);
        lemma_remove_at(entries, i);
        assert(entries.remove(i) =~= front);
        lemma_items_total(front);
        assert(lists(entry_map(front)) =~= m.remove(entries[i].0));
        lemma_total_remove(m, entries[i].0);
    }
}

proof fn lemma_items_up_to<T>(entries: Seq<(Address, Vec<T>)>, i: int)
    requires
        0 <= i <= entries.len(),
    ensures
        items(entries.take(i)) <= items(entries),
    decreases entries.len() - i,
{
    if i == entries.len() {
        assert(entries.take(i) =~= entries);
    } else {
        assert(entries.take(i + 1).drop_last() =~= entries.take(i));
        lemma_items_up_to(entries, i + 1);
    }
}

/// Appends an item to the list of an account.
pub(crate) fn add_item<T>(map: &mut SortedMap<Address, Vec<T>>, account: Address, item: T)
    requires
        old(map).wf(),
    ensures
        final(map).wf(),
        lists(final(map)@) == with_item(lists(old(map)@), account, item),
{
    let mut list: Vec<T> = match map.remove(&account) {
        Some(list) => list,
        None => Vec::new(),
    };
    list.push(item);
    map.insert(account, list);
    assert(lists(map@) =~= with_item(lists(old(map)@), account, item));
}

fn count_items<T>(map: &SortedMap<Address, Vec<T>>) -> (r: usize)
    requires
        map.wf(),
        total(lists(map@)) <= usize::MAX,
    ensures
        r == total(lists(map@)),
{
    let ghost entries = map.entries@;
    proof {
        lemma_items_total(entries);
    }
    let mut total: usize = 0;
    let mut i: usize = 0;
    assert(entries.take(0) =~= Seq::empty());
    while i < map.entries.len()
        invariant
            entries == map.entries@,
            items(entries) <= usize::MAX,
            i <= entries.len(),
            total == items(entries.take(i as int)),
        decreases entries.len() - i,
    {
        proof {
            assert(entries.take(i + 1).drop_last() =~= entries.take(i as int));
            lemma_items_up_to(entries, i + 1);
        }
        total = total + map.entries[i].1.len();
        i = i + 1;
    }
    assert(entries.take(i as int) =~= entries);
    total
}

/// Index of revoked keychain keys, by account.
#[derive(Debug)]
pub struct RevokedKeys {
    /// The revoked keys of each account.
    pub by_account: SortedMap<Address, Vec<Address>>,
}

impl View for RevokedKeys {
    type V = Map<Address, Seq<Address>>;

    open spec fn view(&self) -> Map<Address, Seq<Address>> {
        lists(self.by_account@)
    }
}

/// The key of the account is among the revoked ones.
pub open spec fn revoked(m: Map<Address, Seq<Address>>, account: Address, key_id: Address) -> bool {
    m.contains_key(account) && m[account].contains(key_id)
}

impl RevokedKeys {
    /// The accounts are in order.
    pub open spec fn wf(&self) -> bool {
        self.by_account.wf()
    }

    /// Creates a new empty index.
    pub fn new() -> (r: Self)
        ensures
            r.wf(),
            r@ == Map::<Address, Seq<Address>>::empty(),
            total(r@) == 0,
    {
        let r = RevokedKeys { by_account: SortedMap::new() };
        assert(r@ =~= Map::empty());
        r
    }

    /// Inserts a revoked key.
    pub fn insert(&mut self, account: Address, key_id: Address)
        requires
            old(self).wf(),
        ensures
            final(self).wf(),
            final(self)@ == with_item(old(self)@, account, key_id),
            total(final(self)@) == total(old(self)@) + 1,
    {
        proof {
            lemma_items_total(self.by_account.entries@);
            law_item_is_counted(self@, account, key_id);
        }
        add_item(&mut self.by_account, account, key_id);
    }

    /// Returns true if the index is empty.
    pub fn is_empty(&self) -> (r: bool)
        requires
            self.wf(),
        ensures
            r == (self@ == Map::<Address, Seq<Address>>::empty()),
    {
        let r = self.by_account.is_empty();
        proof {
            if r {
                assert(self@ =~= Map::empty());
            } else {
                lemma_entry_in_map(self.by_account.entries@, 0);
                assert(self@.contains_key(self.by_account.entries@[0].0));
            }
        }
        r
    }

    /// Returns the total number of revoked keys.
    pub fn len(&self) -> (r: usize)
        requires
            self.wf(),
            total(self@) <= usize::MAX,
        ensures
            r == total(self@),
    {
        count_items(&self.by_account)
    }

    /// Returns true if the key of the account is in the index.
    pub fn contains(&self, account: Address, key_id: Address) -> (r: bool)
        requires
            self.wf(),
        ensures
            r == revoked(self@, account, key_id),
    {
        match self.by_account.get(&account) {
            Some(keys) => {
                let mut i: usize = 0;
                while i < keys.len()
                    invariant
                        i <= keys@.len(),
                        self@.contains_key(account),
                        self@[account] == keys@,
                        forall|j: int| 0 <= j < i ==> keys@[j] != key_id,
                    decreases keys@.len() - i,
                {
                    if keys[i] == key_id {
                        assert(self@[account][i as int] == key_id);
                        return true;
                    }
                    i = i + 1;
                }
                false
            },
            None => false,
        }
    }
}

impl Default for RevokedKeys {
    fn default() -> (r: Self)
        ensures
            r.wf(),
            r@ == Map::<Address, Seq<Address>>::empty(),
    {
        RevokedKeys::new()
    }
}

/// After a key is inserted, exactly that key is in the index besides those that were.
pub proof fn law_revoked_insert(
    m: Map<Address, Seq<Address>>,
    account: Address,
    key_id: Address,
    other_account: Address,
    other_key: Address,
)
    ensures
        revoked(with_item(m, account, key_id), other_account, other_key) <==> revoked(
            m,
            other_account,
            other_key,
        ) || (other_account == account && other_key == key_id),
{
    let after = with_item(m, account, key_id);
    if other_account == account {
        let l = after[account];
        if m.contains_key(account) {
            assert(l == m[account].push(key_id));
            if m[account].contains(other_key) {
                let i = choose|i: int| 0 <= i < m[account].len() && m[account][i] == other_key;
                assert(l[i] == other_key);
            }
            assert(l[m[account].len() as int] == key_id);
        } else {
            assert(l[0] == key_id);
        }
    }
}

/// Index of spending limit updates, by account.
#[derive(Debug)]
pub struct SpendingLimitUpdates {
    /// The keys of each account with the token whose limit changed. Without a token, the update
    /// is for any fee token of the key.
    pub by_account: SortedMap<Address, Vec<(Address, Option<Address>)>>,
}

impl View for SpendingLimitUpdates {
    type V = Map<Address, Seq<(Address, Option<Address>)>>;

    open spec fn view(&self) -> Map<Address, Seq<(Address, Option<Address>)>> {
        lists(self.by_account@)
    }
}

/// An update is for the key, and for the token or for any.
pub open spec fn update_covers(
    update: (Address, Option<Address>),
    key_id: Address,
    token: Address,
) -> bool {
    update.0 == key_id && (update.1 is None || update.1 == Some(token))
}

/// A limit of the key of the account changed, for the token or for any.
pub open spec fn limit_updated(
    m: Map<Address, Seq<(Address, Option<Address>)>>,
    account: Address,
    key_id: Address,
    token: Address,
) -> bool {
    m.contains_key(account) && exists|i: int|
        0 <= i < m[account].len() && update_covers(#[trigger] m[account][i], key_id, token)
}

impl SpendingLimitUpdates {
    /// The accounts are in order.
    pub open spec fn wf(&self) -> bool {
        self.by_account.wf()
    }

    /// Creates a new empty index.
    pub fn new() -> (r: Self)
        ensures
            r.wf(),
            r@ == Map::<Address, Seq<(Address, Option<Address>)>>::empty(),
            total(r@) == 0,
    {
        let r = SpendingLimitUpdates { by_account: SortedMap::new() };
        assert(r@ =~= Map::empty());
        r
    }

    /// Inserts a spending limit update. Without a token it matches any fee token.
    pub fn insert(&mut self, account: Address, key_id: Address, token: Option<Address>)
        requires
            old(self).wf(),
        ensures
            final(self).wf(),
            final(self)@ == with_item(old(self)@, account, (key_id, token)),
            total(final(self)@) == total(old(self)@) + 1,
    {
        proof {
            lemma_items_total(self.by_account.entries@);
            law_item_is_counted(self@, account, (key_id, token));
        }
        add_item(&mut self.by_account, account, (key_id, token));
    }

    /// Returns true if the index is empty.
    pub fn is_empty(&self) -> (r: bool)
        requires
            self.wf(),
        ensures
            r == (self@ == Map::<Address, Seq<(Address, Option<Address>)>>::empty()),
    {
        let r = self.by_account.is_empty();
        proof {
            if r {
                assert(self@ =~= Map::empty());
            } else {
                lemma_entry_in_map(self.by_account.entries@, 0);
                assert(self@.contains_key(self.by_account.entries@[0].0));
            }
        }
        r
    }

    /// Returns the total number of spending limit updates.
    pub fn len(&self) -> (r: usize)
        requires
            self.wf(),
            total(self@) <= usize::MAX,
        ensures
            r == total(self@),
    {
        count_items(&self.by_account)
    }

    /// Returns true if a limit of the key of the account changed, for the token or for any.
    pub fn contains(&self, account: Address, key_id: Address, token: Address) -> (r: bool)
        requires
            self.wf(),
        ensures
            r == limit_updated(self@, account, key_id, token),
    {
        match self.by_account.get(&account) {
            Some(updates) => {
                let mut i: usize = 0;
                while i < updates.len()
                    invariant
                        i <= updates@.len(),
                        self@.contains_key(account),
                        self@[account] == updates@,
                        forall|j: int|
                            0 <= j < i ==> !update_covers(#[trigger] updates@[j], key_id, token),
                    decreases updates@.len() - i,
                {
                    let covers: bool = match updates[i].1 {
                        Some(t) => t == token,
                        None => true,
                    };
                    if updates[i].0 == key_id && covers {
                        assert(update_covers(self@[account][i as int], key_id, token));
                        return true;
                    }
                    i = i + 1;
                }
                false
            },
            None => false,
        }
    }
}

impl Default for SpendingLimitUpdates {
    fn default() -> (r: Self)
        ensures
            r.wf(),
            r@ == Map::<Address, Seq<(Address, Option<Address>)>>::empty(),
    {
        SpendingLimitUpdates::new()
    }
}

/// After an update is inserted, the index holds it besides those that were. One without a token
/// holds for every token of its key.
pub proof fn law_limit_update_insert(
    m: Map<Address, Seq<(Address, Option<Address>)>>,
    account: Address,
    key_id: Address,
    token: Option<Address>,
    other_account: Address,
    other_key: Address,
    other_token: Address,
)
    ensures
        limit_updated(
            with_item(m, account, (key_id, token)),
            other_account,
            other_key,
            other_token,
        ) <==> limit_updated(m, other_account, other_key, other_token) || (other_account == account
            && other_key == key_id && (token is None || token == Some(other_token))),
{
    let after = with_item(m, account, (key_id, token));
    let held = limit_updated(m, other_account, other_key, other_token);
    let matches_new = other_account == account && update_covers(
        (key_id, token),
        other_key,
        other_token,
    );
    if held {
        let old_list = m[other_account];
        let i = choose|i: int|
            0 <= i < old_list.len() && update_covers(
                #[trigger] old_list[i],
                other_key,
                other_token,
            );
        assert(after[other_account][i] == old_list[i]);
        assert(limit_updated(after, other_account, other_key, other_token));
    }
    if matches_new {
        let l = after[account];
        assert(l[l.len() - 1] == (key_id, token));
        assert(limit_updated(after, other_account, other_key, other_token));
    }
    if limit_updated(after, other_account, other_key, other_token) {
        let l = after[other_account];
        let i = choose|i: int|
            0 <= i < l.len() && update_covers(#[trigger] l[i], other_key, other_token);
        if other_account == account && i == l.len() - 1 {
            assert(l[i] == (key_id, token));
        } else {
            assert(m.contains_key(other_account));
            assert(m[other_account][i] == l[i]);
        }
    }
}

/// Keychain identity extracted from a transaction.
#[derive(Debug, Clone, Copy, PartialEq, Eq, Hash, Structural)]
pub struct KeychainSubject {
    /// The account that owns the keychain key.
    pub account: Address,
    /// The key recovered from the keychain signature.
    pub key_id: Address,
    /// The fee token used by the transaction.
    pub fee_token: Address,
}

/// Key-authorization witness identity extracted from a transaction.
#[derive(Debug, Clone, Copy, PartialEq, Eq, Hash, Structural)]
pub struct KeyAuthorizationWitnessSubject {
    /// The account whose key-authorization witness is carried or burned.
    pub account: Address,
    /// The witness.
    pub witness: B256,
}

impl KeychainSubject {
    /// Returns true if this subject matches any of the revoked keys.
    pub fn matches_revoked(&self, revoked_keys: &RevokedKeys) -> (r: bool)
        requires
            revoked_keys.wf(),
        ensures
            r == revoked(revoked_keys@, self.account, self.key_id),
    {
        revoked_keys.contains(self.account, self.key_id)
    }

    /// Returns true if this subject is affected by any of the spending limit updates.
    pub fn matches_spending_limit_update(&self, spending_limit_updates: &SpendingLimitUpdates) -> (r:
        bool)
        requires
            spending_limit_updates.wf(),
        ensures
            r == limit_updated(
                spending_limit_updates@,
                self.account,
                self.key_id,
                self.fee_token,
            ),
    {
        spending_limit_updates.contains(self.account, self.key_id, self.fee_token)
    }
}

/// The index after some updates were inserted into an empty one.
pub open spec fn updates_index(updates: Seq<(Address, Address, Option<Address>)>) -> Map<
    Address,
    Seq<(Address, Option<Address>)>,
>
    decreases updates.len(),
{
    if updates.len() == 0 {
        Map::empty()
    } else {
        let (account, key_id, token) = updates.last();
        with_item(updates_index(updates.drop_last()), account, (key_id, token))
    }
}

/// One of the updates is for the key of the account, and for the token or for any.
pub open spec fn any_update_covers(
    updates: Seq<(Address, Address, Option<Address>)>,
    account: Address,
    key_id: Address,
    token: Address,
) -> bool {
    updates.contains((account, key_id, None)) || updates.contains((account, key_id, Some(token)))
}

/// An index that updates were inserted into covers exactly what one of them covers, one without a
/// token covering every token of its key and account. It holds as many updates as were inserted,
/// repeated ones counted, and is empty exactly if none was.
pub proof fn law_updates_index(
    updates: Seq<(Address, Address, Option<Address>)>,
    account: Address,
    key_id: Address,
    token: Address,
)
    ensures
        updates_index(updates).dom().finite(),
        limit_updated(updates_index(updates), account, key_id, token) <==> any_update_covers(
            updates,
            account,
            key_id,
            token,
        ),
        total(updates_index(updates)) == updates.len(),
        updates_index(updates) == Map::<Address, Seq<(Address, Option<Address>)>>::empty()
            <==> updates.len() == 0,
    decreases updates.len(),
{
    if updates.len() > 0 {
        let front = updates.drop_last();
        let last = updates.last();
        law_updates_index(front, account, key_id, token);
        law_item_is_counted(updates_index(front), last.0, (last.1, last.2));
        law_limit_update_insert(
            updates_index(front),
            last.0,
            last.1,
            last.2,
            account,
            key_id,
            token,
        );
        assert(updates =~= front.push(last));
        assert forall|x: (Address, Address, Option<Address>)| #[trigger]
            updates.contains(x) <==> front.contains(x) || x == last by {
            lemma_push_contains(front, last, x);
        }
        assert(updates_index(updates).contains_key(last.0));
    }
}

/// The index after some keys were inserted into an empty one.
pub open spec fn revoked_index(keys: Seq<(Address, Address)>) -> Map<Address, Seq<Address>>
    decreases keys.len(),
{
    if keys.len() == 0 {
        Map::empty()
    } else {
        with_item(revoked_index(keys.drop_last()), keys.last().0, keys.last().1)
    }
}

/// An index that keys were inserted into holds exactly these, as many as were inserted, repeated
/// ones counted, and is empty exactly if none was.
pub proof fn law_revoked_index(keys: Seq<(Address, Address)>, account: Address, key_id: Address)
    ensures
        revoked_index(keys).dom().finite(),
        revoked(revoked_index(keys), account, key_id) <==> keys.contains((account, key_id)),
        total(revoked_index(keys)) == keys.len(),
        revoked_index(keys) == Map::<Address, Seq<Address>>::empty() <==> keys.len() == 0,
    decreases keys.len(),
{
    if keys.len() > 0 {
        let front = keys.drop_last();
        let last = keys.last();
        law_revoked_index(front, account, key_id);
        law_item_is_counted(revoked_index(front), last.0, last.1);
        law_revoked_insert(revoked_index(front), last.0, last.1, account, key_id);
        assert(keys =~= front.push(last));
        lemma_push_contains(front, last, (account, key_id));
        assert(revoked_index(keys).contains_key(last.0));
    }
}

/// A list holds what it held, and what is appended to it.
proof fn lemma_push_contains<A>(s: Seq<A>, x: A, y: A)
    ensures
        s.push(x).contains(y) <==> s.contains(y) || y == x,
{
    if s.push(x).contains(y) {
        let i = choose|i: int| 0 <= i < s.push(x).len() && s.push(x)[i] == y;
        if i < s.len() {
            assert(s[i] == y);
        }
    }
    if s.contains(y) {
        let i = choose|i: int| 0 <= i < s.len() && s[i] == y;
        assert(s.push(x)[i] == y);
    }
    assert(s.push(x)[s.len() as int] == x);
}

} // verus!
