//! What the pool answers about what it holds.
use crate::abi::{address_in_word, be_value, bytes_behind, word_in};
use crate::ids::AA2dTransactionId;
use crate::ordered::{lemma_entry_in_map, lemma_key_has_entry};
use crate::pending::{GetPooledTransactionLimit, PendingTransaction};
use crate::pool::AA2dPool;
use crate::pool_state::AA2dInternalTransaction;
use crate::primitives::{TxHash, B256};
use crate::queries::{looked_up, looked_up_within, picked, selected};
use crate::removal::{hashes_of, lemma_picked_members, lemma_selected_hashes};
use crate::transaction::ValidPoolTransaction;
use std::sync::Arc;
use vstd::prelude::*;

verus! {

/// The pool holds the transaction under the identifier, and the predicate admits it as it is marked.
pub open spec fn admits_id(
    pool: AA2dPool,
    p: spec_fn(ValidPoolTransaction, bool) -> bool,
    id: AA2dTransactionId,
    tx: Arc<ValidPoolTransaction>,
) -> bool {
    &&& pool@.by_id.contains_key(id)
    &&& pool@.by_id[id].inner.transaction == tx
    &&& p(*tx, pool@.by_id[id].is_pending)
}

/// The pool holds the transaction under the expiring nonce hash, and the predicate admits it as a
/// pending one.
pub open spec fn admits_expiring(
    pool: AA2dPool,
    p: spec_fn(ValidPoolTransaction, bool) -> bool,
    hash: B256,
    tx: Arc<ValidPoolTransaction>,
) -> bool {
    &&& pool@.expiring.contains_key(hash)
    &&& pool@.expiring[hash].transaction == tx
    &&& p(*tx, true)
}

/// A query hands out the transactions that it asks for, each once, and no others: a sequential one as
/// it is marked, an expiring one as a pending one.
pub proof fn law_query(
    pool: AA2dPool,
    p: spec_fn(ValidPoolTransaction, bool) -> bool,
    tx: Arc<ValidPoolTransaction>,
)
    requires
        pool.wf(),
    ensures
        selected(pool, p).contains(tx) <==> (exists|id: AA2dTransactionId| #[trigger]
            admits_id(pool, p, id, tx)) || (exists|hash: B256| #[trigger]
            admits_expiring(pool, p, hash, tx)),
        hashes_of(selected(pool, p)).no_duplicates(),
{
    lemma_selected_hashes(pool, p);
    let qa = |tx: AA2dInternalTransaction| p(*tx.inner.transaction, tx.is_pending);
    let fa = |tx: AA2dInternalTransaction| tx.inner.transaction;
    let qb = |tx: PendingTransaction| p(*tx.transaction, true);
    let fb = |tx: PendingTransaction| tx.transaction;
    let ea = pool.by_id.entries@;
    let eb = pool.expiring_nonce_txs.entries@;
    let a = picked(ea, qa, fa);
    let b = picked(eb, qb, fb);
    let all = selected(pool, p);
    assert(all == a + b);
    lemma_picked_members(ea, qa, fa);
    lemma_picked_members(eb, qb, fb);
    if all.contains(tx) {
        let i = choose|i: int| 0 <= i < all.len() && all[i] == tx;
        if i < a.len() {
            assert(a[i] == tx);
            assert(a.contains(tx));
            let j = choose|j: int|
                0 <= j < ea.len() && qa((#[trigger] ea[j]).1) && fa(ea[j].1) == tx;
            lemma_entry_in_map(ea, j);
            assert(admits_id(pool, p, ea[j].0, tx));
        } else {
            assert(b[i - a.len()] == tx);
            assert(b.contains(tx));
            let j = choose|j: int|
                0 <= j < eb.len() && qb((#[trigger] eb[j]).1) && fb(eb[j].1) == tx;
            lemma_entry_in_map(eb, j);
            assert(admits_expiring(pool, p, eb[j].0, tx));
        }
    }
    if exists|id: AA2dTransactionId| #[trigger] admits_id(pool, p, id, tx) {
        let id = choose|id: AA2dTransactionId| #[trigger] admits_id(pool, p, id, tx);
        let j = lemma_key_has_entry(ea, id);
        assert(qa(ea[j].1) && fa(ea[j].1) == tx);
        assert(a.contains(tx));
        let i = choose|i: int| 0 <= i < a.len() && a[i] == tx;
        assert(all[i] == tx);
    }
    if exists|hash: B256| #[trigger] admits_expiring(pool, p, hash, tx) {
        let hash = choose|hash: B256| #[trigger] admits_expiring(pool, p, hash, tx);
        let j = lemma_key_has_entry(eb, hash);
        assert(qb(eb[j].1) && fb(eb[j].1) == tx);
        assert(b.contains(tx));
        let i = choose|i: int| 0 <= i < b.len() && b[i] == tx;
        assert(all[a.len() + i] == tx);
    }
}

/// The total length of transactions.
pub open spec fn length_of(txs: Seq<Arc<ValidPoolTransaction>>) -> int
    decreases txs.len(),
{
    if txs.len() == 0 {
        0
    } else {
        length_of(txs.drop_last()) + txs.last().transaction.inner.encoded_length
    }
}

/// The transactions of hashes are those that are held under them, in the order of the hashes.
pub proof fn law_lookup(
    by_hash: Map<TxHash, Arc<ValidPoolTransaction>>,
    hashes: Seq<TxHash>,
    hash: TxHash,
)
    ensures
        by_hash.contains_key(hash) ==> looked_up(by_hash, hashes.push(hash)) == looked_up(
            by_hash,
            hashes,
        ).push(by_hash[hash]),
        !by_hash.contains_key(hash) ==> looked_up(by_hash, hashes.push(hash)) == looked_up(
            by_hash,
            hashes,
        ),
        looked_up(by_hash, Seq::empty()) == Seq::<Arc<ValidPoolTransaction>>::empty(),
{
    assert(hashes.push(hash).drop_last() == hashes);
}

proof fn lemma_lookup_first(by_hash: Map<TxHash, Arc<ValidPoolTransaction>>, hashes: Seq<TxHash>)
    requires
        hashes.len() > 0,
    ensures
        by_hash.contains_key(hashes[0]) ==> looked_up(by_hash, hashes) == seq![by_hash[hashes[0]]]
            + looked_up(by_hash, hashes.drop_first()),
        !by_hash.contains_key(hashes[0]) ==> looked_up(by_hash, hashes) == looked_up(
            by_hash,
            hashes.drop_first(),
        ),
    decreases hashes.len(),
{
    if hashes.len() > 1 {
        let head = hashes.drop_last();
        let tail = hashes.drop_first();
        lemma_lookup_first(by_hash, head);
        assert(tail.drop_last() == head.drop_first());
        assert(tail.last() == hashes.last());
        assert(head[0] == hashes[0]);
        let rest = looked_up(by_hash, head.drop_first());
        if by_hash.contains_key(hashes.last()) {
            let last = by_hash[hashes.last()];
            assert(looked_up(by_hash, tail) == rest.push(last));
            assert(looked_up(by_hash, hashes) == looked_up(by_hash, head).push(last));
        } else {
            assert(looked_up(by_hash, tail) == rest);
            assert(looked_up(by_hash, hashes) == looked_up(by_hash, head));
        }
    } else {
        let none = Seq::<Arc<ValidPoolTransaction>>::empty();
        assert(looked_up(by_hash, hashes.drop_last()) == none);
        assert(looked_up(by_hash, hashes.drop_first()) == none);
        assert(hashes.last() == hashes[0]);
    }
}

proof fn lemma_length_first(tx: Arc<ValidPoolTransaction>, txs: Seq<Arc<ValidPoolTransaction>>)
    ensures
        length_of(seq![tx] + txs) == tx.transaction.inner.encoded_length + length_of(txs),
    decreases txs.len(),
{
    let all = seq![tx] + txs;
    if txs.len() > 0 {
        lemma_length_first(tx, txs.drop_last());
        assert(all.drop_last() == seq![tx] + txs.drop_last());
    } else {
        assert(all.drop_last() == Seq::<Arc<ValidPoolTransaction>>::empty());
        assert(length_of(all.drop_last()) == 0);
    }
}

/// The size is above the limit, if there is one.
pub open spec fn above(limit: GetPooledTransactionLimit, size: int) -> bool {
    match limit {
        GetPooledTransactionLimit::Unlimited => false,
        GetPooledTransactionLimit::ResponseSizeSoftLimit(most) => size > most,
    }
}

/// A response holds the first of the transactions asked for that the pool has. It is cut off only
/// behind one that takes the size above the limit, and no earlier one does. The size that is told is
/// what was there before and the length of all that the response holds.
pub proof fn law_response_is_cut_off(
    by_hash: Map<TxHash, Arc<ValidPoolTransaction>>,
    hashes: Seq<TxHash>,
    limit: GetPooledTransactionLimit,
    size: int,
)
    ensures
        ({
            let (txs, total) = looked_up_within(by_hash, hashes, limit, size);
            let all = looked_up(by_hash, hashes);
            &&& txs.len() <= all.len()
            &&& txs == all.take(txs.len() as int)
            &&& total == size + length_of(txs)
            &&& txs.len() < all.len() ==> txs.len() > 0 && above(limit, total)
            &&& forall|k: int|
                0 < k < txs.len() ==> !above(limit, size + length_of(#[trigger] txs.take(k)))
        }),
    decreases hashes.len(),
{
    let (txs, total) = looked_up_within(by_hash, hashes, limit, size);
    let all = looked_up(by_hash, hashes);
    if hashes.len() == 0 {
        assert(txs == all.take(0));
    } else {
        let tail = hashes.drop_first();
        lemma_lookup_first(by_hash, hashes);
        if !by_hash.contains_key(hashes[0]) {
            law_response_is_cut_off(by_hash, tail, limit, size);
        } else {
            let tx = by_hash[hashes[0]];
            let larger = size + tx.transaction.inner.encoded_length;
            let none = Seq::<Arc<ValidPoolTransaction>>::empty();
            lemma_length_first(tx, none);
            assert(seq![tx] + none == seq![tx]);
            assert(length_of(seq![tx]) == tx.transaction.inner.encoded_length);
            if limit.spec_exceeds(larger) {
                assert(txs == all.take(1));
            } else {
                law_response_is_cut_off(by_hash, tail, limit, larger);
                let rest = looked_up_within(by_hash, tail, limit, larger).0;
                assert(txs == seq![tx] + rest);
                lemma_length_first(tx, rest);
                assert(txs == all.take(txs.len() as int));
                assert forall|k: int| 0 < k < txs.len() implies !above(
                    limit,
                    size + length_of(#[trigger] txs.take(k)),
                ) by {
                    if k == 1 {
                        assert(txs.take(1) == seq![tx]);
                    } else {
                        assert(txs.take(k) == seq![tx] + rest.take(k - 1));
                        lemma_length_first(tx, rest.take(k - 1));
                    }
                }
            }
        }
    }
}

/// Two hundred and fifty-six to a power.
spec fn shift(n: nat) -> int
    decreases n,
{
    if n == 0 {
        1
    } else {
        256 * shift((n - 1) as nat)
    }
}

proof fn lemma_be_both(a: Seq<u8>, b: Seq<u8>)
    ensures
        be_value(a + b) == be_value(a) * shift(b.len()) + be_value(b),
        0 <= be_value(b) < shift(b.len()),
    decreases b.len(),
{
    if b.len() > 0 {
        let c = b.drop_last();
        lemma_be_both(a, c);
        assert((a + b).drop_last() == a + c);
        assert((a + b).last() == b.last());
        let x = be_value(a);
        let y = shift(c.len());
        assert(x * (256 * y) == (x * y) * 256) by (nonlinear_arith);
    } else {
        assert(a + b == a);
    }
}

proof fn lemma_shifts()
    ensures
        shift(16) == 0x1_0000_0000_0000_0000_0000_0000_0000_0000,
        shift(4) == 0x1_0000_0000,
{
    reveal_with_fuel(shift, 17);
}

/// A word of call data is read as one number of thirty-two bytes with the highest first, and an
/// address as one of the last twenty of them.
pub proof fn law_words_are_read_in_order(data: Seq<u8>, i: int)
    requires
        0 <= i,
        32 * i + 32 <= data.len(),
    ensures
        word_in(data, i).hi * 0x1_0000_0000_0000_0000_0000_0000_0000_0000 + word_in(data, i).lo
            == be_value(data.subrange(32 * i, 32 * i + 32)),
        address_in_word(data, i).hi * 0x1_0000_0000_0000_0000_0000_0000_0000_0000
            + address_in_word(data, i).lo == be_value(data.subrange(32 * i + 12, 32 * i + 32)),
{
    let high = data.subrange(32 * i, 32 * i + 16);
    let low = data.subrange(32 * i + 16, 32 * i + 32);
    let top = data.subrange(32 * i + 12, 32 * i + 16);
    lemma_shifts();
    lemma_be_both(high, low);
    lemma_be_both(top, low);
    lemma_be_both(low, high);
    lemma_be_both(low, top);
    assert(data.subrange(32 * i, 32 * i + 32) == high + low);
    assert(data.subrange(32 * i + 12, 32 * i + 32) == top + low);
}

/// A byte string that an argument points to is read where it stands: at the place that the word of
/// the argument tells, a word with its length, and then its bytes. It is not read if it does not lie
/// within the data.
pub proof fn law_byte_strings_are_read(data: Seq<u8>, i: int, at: int, length: int)
    requires
        0 <= i,
        32 * i + 32 <= data.len(),
        be_value(data.subrange(32 * i, 32 * i + 32)) == at,
        be_value(data.subrange(at, at + 32)) == length,
        0 <= at && 0 <= length,
    ensures
        at + 32 + length <= data.len() && length <= 0x4000_0000 ==> bytes_behind(data, i) is Some
            && (bytes_behind(data, i)->0).len() == length && forall|k: int|
            0 <= k < length ==> #[trigger] (bytes_behind(data, i)->0)[k] == data[at + 32 + k],
        at + 32 + length > data.len() ==> bytes_behind(data, i) is None,
{
}

} // verus!
