//! What the state updates of a block do to the pool.
use crate::ids::{AA2dTransactionId, AASequenceId};
use crate::ordered::sorted_entries;
use crate::pool_state::{inv, without_ids, PoolState};
use crate::primitives::{Address, B256, U256};
use crate::transaction::ValidPoolTransaction;
use crate::updates::{
    all_mined, all_settled, capped_u64, found_expiring, nonces_changed, nonces_updated,
    seen_hashes, slot_nonces, updated_nonces, updated_seen, without_all_expiring, AccountUpdate,
};
use std::sync::Arc;
use vstd::prelude::*;

verus! {

/// A changed slot holds the nonce of a sequence of the pool.
pub open spec fn leads_to(
    s: PoolState,
    storage: Seq<(U256, U256)>,
    k: int,
    seq: AASequenceId,
) -> bool {
    &&& 0 <= k < storage.len()
    &&& s.sequence_slots.contains_key(storage[k].0)
    &&& s.sequence_slots[storage[k].0] == seq
}

/// A slot of the nonce manager that an update changes holds the nonce of a sequence of the pool.
pub open spec fn sets_nonce(
    s: PoolState,
    nonce_manager: Address,
    updates: Seq<AccountUpdate>,
    i: int,
    k: int,
    seq: AASequenceId,
) -> bool {
    &&& 0 <= i < updates.len()
    &&& updates[i].address == nonce_manager
    &&& leads_to(s, updates[i].storage@, k, seq)
}

/// A slot of the nonce manager that an update sets to a value other than zero marks the expiring
/// nonce hash as seen.
pub open spec fn marks_seen(
    s: PoolState,
    nonce_manager: Address,
    updates: Seq<AccountUpdate>,
    i: int,
    k: int,
    hash: B256,
) -> bool {
    &&& 0 <= i < updates.len()
    &&& updates[i].address == nonce_manager
    &&& marks(s, updates[i].storage@, k, hash)
}

/// A slot that is set to a value other than zero marks the expiring nonce hash as seen.
pub open spec fn marks(s: PoolState, storage: Seq<(U256, U256)>, k: int, hash: B256) -> bool {
    &&& 0 <= k < storage.len()
    &&& storage[k].1@ != 0
    &&& s.expiring_slots.contains_key(storage[k].0)
    &&& s.expiring_slots[storage[k].0] == hash
}

/// The sequence of an account for the nonce key zero.
pub open spec fn account_sequence(update: AccountUpdate) -> AASequenceId {
    AASequenceId { address: update.address, nonce_key: U256 { hi: 0, lo: 0 } }
}

/// The nonce of an account, which is zero if there is no account.
pub open spec fn account_nonce(update: AccountUpdate) -> u64 {
    match update.nonce {
        Some(nonce) => nonce,
        None => 0,
    }
}

/// Each account is updated once, and each sequence by one slot at most.
pub open spec fn updated_once(
    s: PoolState,
    nonce_manager: Address,
    updates: Seq<AccountUpdate>,
) -> bool {
    &&& forall|i: int, j: int|
        #![trigger updates[i], updates[j]]
        0 <= i < j < updates.len() ==> updates[i].address != updates[j].address
    &&& forall|i: int, k: int, l: int, seq: AASequenceId|
        #![trigger sets_nonce(s, nonce_manager, updates, i, k, seq), sets_nonce(s, nonce_manager, updates, i, l, seq)]
        sets_nonce(s, nonce_manager, updates, i, k, seq) && sets_nonce(
            s,
            nonce_manager,
            updates,
            i,
            l,
            seq,
        ) ==> k == l
}

proof fn lemma_slots_elsewhere(
    s: PoolState,
    storage: Seq<(U256, U256)>,
    nonces: Map<AASequenceId, u64>,
    seq: AASequenceId,
)
    requires
        forall|k: int| !leads_to(s, storage, k, seq),
    ensures
        slot_nonces(s, storage, nonces).contains_key(seq) == nonces.contains_key(seq),
        slot_nonces(s, storage, nonces)[seq] == nonces[seq],
    decreases storage.len(),
{
    if storage.len() > 0 {
        let front = storage.drop_last();
        assert forall|k: int| !leads_to(s, front, k, seq) by {
            assert(!leads_to(s, storage, k, seq));
        }
        lemma_slots_elsewhere(s, front, nonces, seq);
        assert(!leads_to(s, storage, storage.len() - 1, seq));
    }
}

proof fn lemma_slot_nonce(
    s: PoolState,
    storage: Seq<(U256, U256)>,
    nonces: Map<AASequenceId, u64>,
    seq: AASequenceId,
    k: int,
)
    requires
        leads_to(s, storage, k, seq),
        forall|l: int| k < l ==> !leads_to(s, storage, l, seq),
    ensures
        slot_nonces(s, storage, nonces).contains_key(seq),
        slot_nonces(s, storage, nonces)[seq] == capped_u64(storage[k].1@),
    decreases storage.len(),
{
    let front = storage.drop_last();
    if k < front.len() {
        assert(leads_to(s, front, k, seq));
        assert forall|l: int| k < l implies !leads_to(s, front, l, seq) by {
            assert(!leads_to(s, storage, l, seq));
        }
        lemma_slot_nonce(s, front, nonces, seq, k);
        assert(!leads_to(s, storage, storage.len() - 1, seq));
    }
}

proof fn lemma_nonce_untouched(
    s: PoolState,
    nonce_manager: Address,
    updates: Seq<AccountUpdate>,
    seq: AASequenceId,
)
    requires
        forall|i: int| 0 <= i < updates.len() ==> account_sequence(#[trigger] updates[i]) != seq,
        forall|i: int, k: int| !sets_nonce(s, nonce_manager, updates, i, k, seq),
    ensures
        !updated_nonces(s, nonce_manager, updates).contains_key(seq),
    decreases updates.len(),
{
    if updates.len() > 0 {
        let front = updates.drop_last();
        let last = updates.len() - 1;
        assert forall|i: int| 0 <= i < front.len() implies account_sequence(#[trigger] front[i])
            != seq by {
            assert(updates[i] == front[i]);
        }
        assert forall|i: int, k: int| !sets_nonce(s, nonce_manager, front, i, k, seq) by {
            assert(!sets_nonce(s, nonce_manager, updates, i, k, seq));
        }
        lemma_nonce_untouched(s, nonce_manager, front, seq);
        if updates[last].address == nonce_manager {
            assert forall|k: int| !leads_to(s, updates[last].storage@, k, seq) by {
                assert(!sets_nonce(s, nonce_manager, updates, last, k, seq));
            }
            lemma_slots_elsewhere(
                s,
                updates[last].storage@,
                updated_nonces(s, nonce_manager, front),
                seq,
            );
        }
    }
}

proof fn lemma_account_nonce(
    s: PoolState,
    nonce_manager: Address,
    updates: Seq<AccountUpdate>,
    i: int,
)
    requires
        inv(s),
        0 <= i < updates.len(),
        forall|j: int| i < j < updates.len() ==> (#[trigger] updates[j]).address
            != updates[i].address,
    ensures
        updated_nonces(s, nonce_manager, updates).contains_key(account_sequence(updates[i])),
        updated_nonces(s, nonce_manager, updates)[account_sequence(updates[i])] == account_nonce(
            updates[i],
        ),
    decreases updates.len(),
{
    reveal(inv);
    let last = updates.len() - 1;
    if i < last {
        let front = updates.drop_last();
        let seq = account_sequence(updates[i]);
        assert forall|j: int| i < j < front.len() implies (#[trigger] front[j]).address
            != front[i].address by {
            assert(updates[j] == front[j]);
        }
        lemma_account_nonce(s, nonce_manager, front, i);
        assert(updates[last].address != updates[i].address);
        if updates[last].address == nonce_manager {
            lemma_slots_elsewhere(
                s,
                updates[last].storage@,
                updated_nonces(s, nonce_manager, front),
                seq,
            );
        }
    }
}

proof fn lemma_sequence_nonce(
    s: PoolState,
    nonce_manager: Address,
    updates: Seq<AccountUpdate>,
    i: int,
    k: int,
    seq: AASequenceId,
)
    requires
        inv(s),
        sets_nonce(s, nonce_manager, updates, i, k, seq),
        forall|l: int| k < l ==> !sets_nonce(s, nonce_manager, updates, i, l, seq),
        forall|j: int| i < j < updates.len() ==> (#[trigger] updates[j]).address != nonce_manager,
    ensures
        updated_nonces(s, nonce_manager, updates).contains_key(seq),
        updated_nonces(s, nonce_manager, updates)[seq] == capped_u64(updates[i].storage@[k].1@),
    decreases updates.len(),
{
    reveal(inv);
    let last = updates.len() - 1;
    let front = updates.drop_last();
    assert(seq.nonce_key@ != 0);
    assert(account_sequence(updates[last]).nonce_key@ == 0);
    if i < last {
        assert(updates[last].address != nonce_manager);
        assert(sets_nonce(s, nonce_manager, front, i, k, seq));
        assert forall|l: int| k < l implies !sets_nonce(s, nonce_manager, front, i, l, seq) by {
            assert(!sets_nonce(s, nonce_manager, updates, i, l, seq));
        }
        assert forall|j: int| i < j < front.len() implies (#[trigger] front[j]).address
            != nonce_manager by {
            assert(updates[j] == front[j]);
        }
        lemma_sequence_nonce(s, nonce_manager, front, i, k, seq);
    } else {
        assert forall|l: int| k < l implies !leads_to(s, updates[last].storage@, l, seq) by {
            assert(!sets_nonce(s, nonce_manager, updates, i, l, seq));
        }
        lemma_slot_nonce(
            s,
            updates[last].storage@,
            updated_nonces(s, nonce_manager, front),
            seq,
            k,
        );
    }
}

/// The nonces that a block sets are those of the updated accounts for the nonce key zero, and for
/// each changed slot of the nonce manager that the pool has on record, the value of the slot as the
/// nonce of its sequence.
pub proof fn law_updated_nonces(
    s: PoolState,
    nonce_manager: Address,
    updates: Seq<AccountUpdate>,
)
    requires
        inv(s),
        updated_once(s, nonce_manager, updates),
    ensures
        ({
            let nonces = updated_nonces(s, nonce_manager, updates);
            &&& forall|i: int|
                0 <= i < updates.len() ==> nonces.contains_key(
                    account_sequence(#[trigger] updates[i]),
                ) && nonces[account_sequence(updates[i])] == account_nonce(updates[i])
            &&& forall|i: int, k: int, seq: AASequenceId| #[trigger]
                sets_nonce(s, nonce_manager, updates, i, k, seq) ==> nonces.contains_key(seq)
                    && nonces[seq] == capped_u64(updates[i].storage@[k].1@)
            &&& forall|seq: AASequenceId| #[trigger]
                nonces.contains_key(seq) ==> (exists|i: int|
                    0 <= i < updates.len() && account_sequence(#[trigger] updates[i]) == seq) || (
                exists|i: int, k: int| #[trigger]
                    sets_nonce(s, nonce_manager, updates, i, k, seq))
        }),
{
    let nonces = updated_nonces(s, nonce_manager, updates);
    assert forall|i: int| 0 <= i < updates.len() implies nonces.contains_key(
        account_sequence(#[trigger] updates[i]),
    ) && nonces[account_sequence(updates[i])] == account_nonce(updates[i]) by {
        lemma_account_nonce(s, nonce_manager, updates, i);
    }
    assert forall|i: int, k: int, seq: AASequenceId| #[trigger]
        sets_nonce(s, nonce_manager, updates, i, k, seq) implies nonces.contains_key(seq)
        && nonces[seq] == capped_u64(updates[i].storage@[k].1@) by {
        lemma_sequence_nonce(s, nonce_manager, updates, i, k, seq);
    }
    assert forall|seq: AASequenceId| #[trigger] nonces.contains_key(seq) implies (exists|i: int|
        0 <= i < updates.len() && account_sequence(#[trigger] updates[i]) == seq) || (exists|
        i: int,
        k: int,
    | #[trigger]
        sets_nonce(s, nonce_manager, updates, i, k, seq)) by {
        if !((exists|i: int|
            0 <= i < updates.len() && account_sequence(#[trigger] updates[i]) == seq) || (exists|
            i: int,
            k: int,
        | #[trigger]
            sets_nonce(s, nonce_manager, updates, i, k, seq))) {
            lemma_nonce_untouched(s, nonce_manager, updates, seq);
        }
    }
}

proof fn lemma_seen_hashes(s: PoolState, storage: Seq<(U256, U256)>, hash: B256)
    ensures
        seen_hashes(s, storage).contains(hash) <==> exists|k: int| #[trigger]
            marks(s, storage, k, hash),
    decreases storage.len(),
{
    let all = seen_hashes(s, storage);
    if storage.len() > 0 {
        let front = storage.drop_last();
        let rest = seen_hashes(s, front);
        let last = storage.len() - 1;
        lemma_seen_hashes(s, front, hash);
        if all.contains(hash) {
            let m = choose|m: int| 0 <= m < all.len() && all[m] == hash;
            if m < rest.len() {
                assert(rest[m] == hash);
                let k = choose|k: int| #[trigger] marks(s, front, k, hash);
                assert(marks(s, storage, k, hash));
            } else {
                assert(marks(s, storage, last, hash));
            }
        }
        if exists|k: int| #[trigger] marks(s, storage, k, hash) {
            let k = choose|k: int| #[trigger] marks(s, storage, k, hash);
            if k < last {
                assert(marks(s, front, k, hash));
                let m = choose|m: int| 0 <= m < rest.len() && rest[m] == hash;
                assert(all[m] == hash);
            } else {
                assert(all[rest.len() as int] == hash);
            }
        }
    }
}

/// The expiring nonce hashes that a block marks as seen are those of the slots of the nonce manager
/// that it sets to a value other than zero and that the pool has on record.
pub proof fn law_updated_seen(
    s: PoolState,
    nonce_manager: Address,
    updates: Seq<AccountUpdate>,
    hash: B256,
)
    ensures
        updated_seen(s, nonce_manager, updates).contains(hash) <==> exists|i: int, k: int| #[trigger]
            marks_seen(s, nonce_manager, updates, i, k, hash),
    decreases updates.len(),
{
    let all = updated_seen(s, nonce_manager, updates);
    if updates.len() > 0 {
        let front = updates.drop_last();
        let rest = updated_seen(s, nonce_manager, front);
        let last = updates.len() - 1;
        let more = seen_hashes(s, updates[last].storage@);
        law_updated_seen(s, nonce_manager, front, hash);
        lemma_seen_hashes(s, updates[last].storage@, hash);
        if all.contains(hash) {
            let m = choose|m: int| 0 <= m < all.len() && all[m] == hash;
            if m < rest.len() {
                assert(rest[m] == hash);
                let (i, k) = choose|i: int, k: int| #[trigger]
                    marks_seen(s, nonce_manager, front, i, k, hash);
                assert(marks_seen(s, nonce_manager, updates, i, k, hash));
            } else {
                assert(more[m - rest.len()] == hash);
                let k = choose|k: int| #[trigger] marks(s, updates[last].storage@, k, hash);
                assert(marks_seen(s, nonce_manager, updates, last, k, hash));
            }
        }
        if exists|i: int, k: int| #[trigger] marks_seen(s, nonce_manager, updates, i, k, hash) {
            let (i, k) = choose|i: int, k: int| #[trigger]
                marks_seen(s, nonce_manager, updates, i, k, hash);
            if i < last {
                assert(marks_seen(s, nonce_manager, front, i, k, hash));
                let m = choose|m: int| 0 <= m < rest.len() && rest[m] == hash;
                assert(all[m] == hash);
            } else {
                assert(marks(s, updates[last].storage@, k, hash));
                let m = choose|m: int| 0 <= m < more.len() && more[m] == hash;
                assert(all[rest.len() + m] == hash);
            }
        }
    }
}

proof fn lemma_settled_expiring(s: PoolState, changes: Seq<(AASequenceId, u64)>)
    ensures
        all_settled(s, changes).expiring == s.expiring,
    decreases changes.len(),
{
    if changes.len() > 0 {
        lemma_settled_expiring(s, changes.drop_last());
    }
}

proof fn lemma_without_ids_expiring(s: PoolState, ids: Seq<AA2dTransactionId>)
    ensures
        without_ids(s, ids).expiring == s.expiring,
    decreases ids.len(),
{
    if ids.len() > 0 {
        lemma_without_ids_expiring(s, ids.drop_last());
    }
}

/// The pool holds the expiring nonce transaction under one of the given hashes.
pub open spec fn held_under(
    s: PoolState,
    hashes: Seq<B256>,
    hash: B256,
    tx: Arc<ValidPoolTransaction>,
) -> bool {
    hashes.contains(hash) && s.expiring.contains_key(hash) && s.expiring[hash].transaction == tx
}

/// Removing expiring nonce transactions leaves those of other hashes, and everything of sequential
/// nonces, as they were.
proof fn lemma_without_all_expiring(s: PoolState, hashes: Seq<B256>)
    ensures
        ({
            let t = without_all_expiring(s, hashes);
            &&& t.by_id == s.by_id
            &&& t.independent == s.independent
            &&& t.sequence_slots == s.sequence_slots
            &&& t.submission_id == s.submission_id
            &&& t.new_pending == s.new_pending
            &&& t.config == s.config
            &&& forall|hash: B256| #[trigger]
                t.expiring.contains_key(hash) <==> s.expiring.contains_key(hash)
                    && !hashes.contains(hash)
            &&& forall|hash: B256| #[trigger]
                t.expiring.contains_key(hash) ==> t.expiring[hash] == s.expiring[hash]
        }),
    decreases hashes.len(),
{
    if hashes.len() > 0 {
        let front = hashes.drop_last();
        let last = hashes.len() - 1;
        lemma_without_all_expiring(s, front);
        assert forall|hash: B256| #[trigger]
            hashes.contains(hash) <==> front.contains(hash) || hash == hashes[last] by {
            if hashes.contains(hash) {
                let m = choose|m: int| 0 <= m < hashes.len() && hashes[m] == hash;
                if m < last {
                    assert(front[m] == hash);
                }
            }
            if front.contains(hash) {
                let m = choose|m: int| 0 <= m < front.len() && front[m] == hash;
                assert(hashes[m] == hash);
            }
        }
    }
}

proof fn lemma_found_expiring(s: PoolState, hashes: Seq<B256>, tx: Arc<ValidPoolTransaction>)
    ensures
        found_expiring(s, hashes).contains(tx) <==> exists|hash: B256| #[trigger]
            held_under(s, hashes, hash, tx),
    decreases hashes.len(),
{
    let found = found_expiring(s, hashes);
    if hashes.len() > 0 {
        let front = hashes.drop_last();
        let last = hashes.last();
        let before = found_expiring(s, front);
        lemma_found_expiring(s, front, tx);
        lemma_without_all_expiring(s, front);
        if found.contains(tx) {
            let m = choose|m: int| 0 <= m < found.len() && found[m] == tx;
            if m < before.len() {
                assert(before[m] == tx);
                let hash = choose|hash: B256| #[trigger] held_under(s, front, hash, tx);
                let k = choose|k: int| 0 <= k < front.len() && front[k] == hash;
                assert(hashes[k] == hash);
                assert(held_under(s, hashes, hash, tx));
            } else {
                assert(hashes[hashes.len() - 1] == last);
                assert(held_under(s, hashes, last, tx));
            }
        }
        if exists|hash: B256| #[trigger] held_under(s, hashes, hash, tx) {
            let hash = choose|hash: B256| #[trigger] held_under(s, hashes, hash, tx);
            if front.contains(hash) {
                assert(held_under(s, front, hash, tx));
                let m = choose|m: int| 0 <= m < before.len() && before[m] == tx;
                assert(found[m] == tx);
            } else {
                let k = choose|k: int| 0 <= k < hashes.len() && hashes[k] == hash;
                if k < front.len() {
                    assert(front[k] == hash);
                }
                assert(found[before.len() as int] == tx);
            }
        }
    } else if exists|hash: B256| #[trigger] held_under(s, hashes, hash, tx) {
        let hash = choose|hash: B256| #[trigger] held_under(s, hashes, hash, tx);
        assert(hashes.contains(hash));
    }
}

/// The state updates of a block do to transactions with sequential nonces what the nonces they set
/// do, and to those with expiring nonces nothing but to remove the ones whose hash they mark as
/// seen. These are reported as mined.
pub proof fn law_state_updates(
    s: PoolState,
    nonce_manager: Address,
    updates: Seq<AccountUpdate>,
)
    ensures
        ({
            let nonces = sorted_entries(updated_nonces(s, nonce_manager, updates));
            let seen = updated_seen(s, nonce_manager, updates);
            let t = nonces_updated(s, nonce_manager, updates);
            let end = without_all_expiring(t, seen);
            &&& t == nonces_changed(s, nonces)
            &&& end.by_id == t.by_id
            &&& end.independent == t.independent
            &&& end.sequence_slots == t.sequence_slots
            &&& end.new_pending == t.new_pending
            &&& end.submission_id == t.submission_id
            &&& end.config == t.config
            &&& forall|hash: B256| #[trigger]
                end.expiring.contains_key(hash) <==> s.expiring.contains_key(hash) && !(exists|
                    i: int,
                    k: int,
                | #[trigger]
                    marks_seen(s, nonce_manager, updates, i, k, hash))
            &&& forall|hash: B256| #[trigger]
                end.expiring.contains_key(hash) ==> end.expiring[hash] == s.expiring[hash]
            &&& forall|tx: Arc<ValidPoolTransaction>| #[trigger]
                found_expiring(t, seen).contains(tx) <==> exists|hash: B256| #[trigger]
                    held_under(s, seen, hash, tx)
        }),
{
    let nonces = sorted_entries(updated_nonces(s, nonce_manager, updates));
    let seen = updated_seen(s, nonce_manager, updates);
    let t = nonces_updated(s, nonce_manager, updates);
    let end = without_all_expiring(t, seen);
    lemma_settled_expiring(s, nonces);
    lemma_without_ids_expiring(all_settled(s, nonces), all_mined(s.by_id, nonces));
    assert(t.expiring == s.expiring);
    lemma_without_all_expiring(t, seen);
    assert forall|hash: B256| #[trigger] end.expiring.contains_key(
        hash,
    ) <==> s.expiring.contains_key(hash) && !(exists|i: int, k: int| #[trigger]
        marks_seen(s, nonce_manager, updates, i, k, hash)) by {
        law_updated_seen(s, nonce_manager, updates, hash);
    }
    assert forall|tx: Arc<ValidPoolTransaction>| #[trigger] found_expiring(t, seen).contains(
        tx,
    ) <==> exists|hash: B256| #[trigger] held_under(s, seen, hash, tx) by {
        lemma_found_expiring(t, seen, tx);
        assert forall|hash: B256| #[trigger] held_under(t, seen, hash, tx) == held_under(
            s,
            seen,
            hash,
            tx,
        ) by {}
        if exists|hash: B256| #[trigger] held_under(s, seen, hash, tx) {
            let hash = choose|hash: B256| #[trigger] held_under(s, seen, hash, tx);
            assert(held_under(t, seen, hash, tx));
        }
    }
}

} // verus!
