//! Looking at what the pool holds.
use crate::pending::{share, GetPooledTransactionLimit, PendingTransaction};
use crate::pool::AA2dPool;
use crate::pool_state::AA2dInternalTransaction;
use crate::primitives::{Address, TxHash};
use crate::transaction::{TransactionOrigin, ValidPoolTransaction};
use std::sync::Arc;
use vstd::prelude::*;

verus! {

/// What `f` makes of the entries that satisfy `p`, in their order.
pub open spec fn picked<K, V, T>(
    entries: Seq<(K, V)>,
    p: spec_fn(V) -> bool,
    f: spec_fn(V) -> T,
) -> Seq<T>
    decreases entries.len(),
{
    if entries.len() == 0 {
        Seq::empty()
    } else {
        let rest = picked(entries.drop_last(), p, f);
        if p(entries.last().1) {
            rest.push(f(entries.last().1))
        } else {
            rest
        }
    }
}

/// The transactions of the pool that satisfy `p`, which is told the transaction and whether it is
/// pending: those with sequential nonces in the order of their identifiers, then those with
/// expiring nonces in the order of their expiring nonce hashes.
pub open spec fn selected(
    pool: AA2dPool,
    p: spec_fn(ValidPoolTransaction, bool) -> bool,
) -> Seq<Arc<ValidPoolTransaction>> {
    picked(
        pool.by_id.entries@,
        |tx: AA2dInternalTransaction| p(*tx.inner.transaction, tx.is_pending),
        |tx: AA2dInternalTransaction| tx.inner.transaction,
    ) + picked(
        pool.expiring_nonce_txs.entries@,
        |tx: PendingTransaction| p(*tx.transaction, true),
        |tx: PendingTransaction| tx.transaction,
    )
}

/// The transactions of the given hashes that the map holds, in the order of the hashes.
pub open spec fn looked_up(
    by_hash: Map<TxHash, Arc<ValidPoolTransaction>>,
    hashes: Seq<TxHash>,
) -> Seq<Arc<ValidPoolTransaction>>
    decreases hashes.len(),
{
    if hashes.len() == 0 {
        Seq::empty()
    } else {
        let rest = looked_up(by_hash, hashes.drop_last());
        if by_hash.contains_key(hashes.last()) {
            rest.push(by_hash[hashes.last()])
        } else {
            rest
        }
    }
}

/// The transactions of the given hashes that the map holds, up to and with the one that takes the
/// size above the limit, and the size they come to.
pub open spec fn looked_up_within(
    by_hash: Map<TxHash, Arc<ValidPoolTransaction>>,
    hashes: Seq<TxHash>,
    limit: GetPooledTransactionLimit,
    size: int,
) -> (Seq<Arc<ValidPoolTransaction>>, int)
    decreases hashes.len(),
{
    if hashes.len() == 0 {
        (Seq::empty(), size)
    } else if !by_hash.contains_key(hashes[0]) {
        looked_up_within(by_hash, hashes.drop_first(), limit, size)
    } else {
        let tx = by_hash[hashes[0]];
        let larger = size + tx.transaction.inner.encoded_length;
        if limit.spec_exceeds(larger) {
            (seq![tx], larger)
        } else {
            let rest = looked_up_within(by_hash, hashes.drop_first(), limit, larger);
            (seq![tx] + rest.0, rest.1)
        }
    }
}

/// What to pick from the pool: each field that is set narrows the choice.
struct Selection {
    pending: Option<bool>,
    origin: Option<TransactionOrigin>,
    sender: Option<Address>,
}

impl Selection {
    spec fn spec_admits(self, tx: ValidPoolTransaction, pending: bool) -> bool {
        &&& self.pending is Some ==> self.pending->0 == pending
        &&& self.origin is Some ==> self.origin->0 == tx.origin
        &&& self.sender is Some ==> self.sender->0 == tx.transaction.inner.sender
    }

    fn admits(&self, tx: &ValidPoolTransaction, pending: bool) -> (r: bool)
        ensures
            r == self.spec_admits(*tx, pending),
    {
        (match self.pending {
            Some(wanted) => wanted == pending,
            None => true,
        }) && (match self.origin {
            Some(origin) => origin == tx.origin,
            None => true,
        }) && (match self.sender {
            Some(sender) => sender == tx.transaction.sender(),
            None => true,
        })
    }
}

impl AA2dPool {
    fn select(&self, selection: &Selection) -> (r: Vec<Arc<ValidPoolTransaction>>)
        ensures
            r@ == selected(
                *self,
                |tx: ValidPoolTransaction, pending: bool| selection.spec_admits(tx, pending),
            ),
    {
        let mut r: Vec<Arc<ValidPoolTransaction>> = Vec::new();
        let ghost p = |tx: ValidPoolTransaction, pending: bool| selection.spec_admits(tx, pending);
        let ghost q = |tx: AA2dInternalTransaction| p(*tx.inner.transaction, tx.is_pending);
        let ghost f = |tx: AA2dInternalTransaction| tx.inner.transaction;
        let ghost entries = self.by_id.entries@;
        let mut i: usize = 0;
        assert(entries.take(0) =~= Seq::empty());
        while i < self.by_id.entries.len()
            invariant
                entries == self.by_id.entries@,
                i <= entries.len(),
                q == (|tx: AA2dInternalTransaction| p(*tx.inner.transaction, tx.is_pending)),
                p == (|tx: ValidPoolTransaction, pending: bool|
                    selection.spec_admits(tx, pending)),
                f == (|tx: AA2dInternalTransaction| tx.inner.transaction),
                r@ == picked(entries.take(i as int), q, f),
            decreases entries.len() - i,
        {
            assert(entries.take(i + 1).drop_last() =~= entries.take(i as int));
            let tx = &self.by_id.entries[i].1;
            if selection.admits(&tx.inner.transaction, tx.is_pending) {
                r.push(share(&tx.inner.transaction));
            }
            i = i + 1;
        }
        assert(entries.take(i as int) =~= entries);
        let ghost head = r@;
        let ghost others = self.expiring_nonce_txs.entries@;
        let ghost qe = |tx: PendingTransaction| p(*tx.transaction, true);
        let ghost fe = |tx: PendingTransaction| tx.transaction;
        let mut k: usize = 0;
        assert(others.take(0) =~= Seq::empty());
        assert(head + picked(others.take(0), qe, fe) =~= head);
        while k < self.expiring_nonce_txs.entries.len()
            invariant
                others == self.expiring_nonce_txs.entries@,
                k <= others.len(),
                qe == (|tx: PendingTransaction| p(*tx.transaction, true)),
                p == (|tx: ValidPoolTransaction, pending: bool|
                    selection.spec_admits(tx, pending)),
                fe == (|tx: PendingTransaction| tx.transaction),
                r@ == head + picked(others.take(k as int), qe, fe),
            decreases others.len() - k,
        {
            assert(others.take(k + 1).drop_last() =~= others.take(k as int));
            let tx = &self.expiring_nonce_txs.entries[k].1;
            if selection.admits(&tx.transaction, true) {
                r.push(share(&tx.transaction));
                assert(r@ =~= head + picked(others.take(k + 1), qe, fe));
            }
            k = k + 1;
        }
        assert(others.take(k as int) =~= others);
        r
    }

    /// Returns all transactions that were submitted with the given origin.
    pub fn get_transactions_by_origin(&self, origin: TransactionOrigin) -> (r: Vec<
        Arc<ValidPoolTransaction>,
    >)
        ensures
            r@ == selected(*self, |tx: ValidPoolTransaction, pending: bool| tx.origin == origin),
    {
        let selection = Selection { pending: None, origin: Some(origin), sender: None };
        assert((|tx: ValidPoolTransaction, pending: bool| selection.spec_admits(tx, pending))
            =~= (|tx: ValidPoolTransaction, pending: bool| tx.origin == origin));
        self.select(&selection)
    }

    /// Returns all pending transactions that were submitted with the given origin.
    pub fn get_pending_transactions_by_origin(&self, origin: TransactionOrigin) -> (r: Vec<
        Arc<ValidPoolTransaction>,
    >)
        ensures
            r@ == selected(
                *self,
                |tx: ValidPoolTransaction, pending: bool| pending && tx.origin == origin,
            ),
    {
        let selection = Selection { pending: Some(true), origin: Some(origin), sender: None };
        assert((|tx: ValidPoolTransaction, pending: bool| selection.spec_admits(tx, pending))
            =~= (|tx: ValidPoolTransaction, pending: bool| pending && tx.origin == origin));
        self.select(&selection)
    }

    /// Returns all transactions of the address.
    pub fn get_transactions_by_sender(&self, sender: Address) -> (r: Vec<
        Arc<ValidPoolTransaction>,
    >)
        ensures
            r@ == selected(
                *self,
                |tx: ValidPoolTransaction, pending: bool| tx.transaction.inner.sender == sender,
            ),
    {
        let selection = Selection { pending: None, origin: None, sender: Some(sender) };
        assert((|tx: ValidPoolTransaction, pending: bool| selection.spec_admits(tx, pending))
            =~= (|tx: ValidPoolTransaction, pending: bool|
            tx.transaction.inner.sender == sender));
        self.select(&selection)
    }

    /// Returns all transactions that are queued.
    pub fn queued_transactions(&self) -> (r: Vec<Arc<ValidPoolTransaction>>)
        ensures
            r@ == selected(*self, |tx: ValidPoolTransaction, pending: bool| !pending),
    {
        let selection = Selection { pending: Some(false), origin: None, sender: None };
        assert((|tx: ValidPoolTransaction, pending: bool| selection.spec_admits(tx, pending))
            =~= (|tx: ValidPoolTransaction, pending: bool| !pending));
        self.select(&selection)
    }

    /// Returns all transactions that are pending.
    pub fn pending_transactions(&self) -> (r: Vec<Arc<ValidPoolTransaction>>)
        ensures
            r@ == selected(*self, |tx: ValidPoolTransaction, pending: bool| pending),
    {
        let selection = Selection { pending: Some(true), origin: None, sender: None };
        assert((|tx: ValidPoolTransaction, pending: bool| selection.spec_admits(tx, pending))
            =~= (|tx: ValidPoolTransaction, pending: bool| pending));
        self.select(&selection)
    }

    /// Returns the sender of each transaction in this pool.
    pub fn senders(&self) -> (r: Vec<Address>)
        ensures
            r@ == selected(*self, |tx: ValidPoolTransaction, pending: bool| true).map_values(
                |tx: Arc<ValidPoolTransaction>| tx.transaction.inner.sender,
            ),
    {
        let selection = Selection { pending: None, origin: None, sender: None };
        assert((|tx: ValidPoolTransaction, pending: bool| selection.spec_admits(tx, pending))
            =~= (|tx: ValidPoolTransaction, pending: bool| true));
        let txs = self.select(&selection);
        let mut r: Vec<Address> = Vec::new();
        let mut i: usize = 0;
        let ghost f = |tx: Arc<ValidPoolTransaction>| tx.transaction.inner.sender;
        while i < txs.len()
            invariant
                i <= txs@.len(),
                f == (|tx: Arc<ValidPoolTransaction>| tx.transaction.inner.sender),
                r@ == txs@.take(i as int).map_values(f),
            decreases txs@.len() - i,
        {
            r.push(txs[i].transaction.sender());
            i = i + 1;
            assert(r@ =~= txs@.take(i as int).map_values(f));
        }
        assert(txs@.take(i as int) =~= txs@);
        r
    }

    /// Returns all transaction hashes in this pool, in ascending order.
    pub fn all_transaction_hashes(&self) -> (r: Vec<TxHash>)
        ensures
            r@ == self.by_hash.entries@.map_values(
                |e: (TxHash, Arc<ValidPoolTransaction>)| e.0,
            ),
    {
        let mut r: Vec<TxHash> = Vec::new();
        let mut i: usize = 0;
        let ghost f = |e: (TxHash, Arc<ValidPoolTransaction>)| e.0;
        while i < self.by_hash.entries.len()
            invariant
                i <= self.by_hash.entries@.len(),
                f == (|e: (TxHash, Arc<ValidPoolTransaction>)| e.0),
                r@ == self.by_hash.entries@.take(i as int).map_values(f),
            decreases self.by_hash.entries@.len() - i,
        {
            r.push(self.by_hash.entries[i].0);
            i = i + 1;
            assert(r@ =~= self.by_hash.entries@.take(i as int).map_values(f));
        }
        assert(self.by_hash.entries@.take(i as int) =~= self.by_hash.entries@);
        r
    }

    /// Returns transactions in the pool that can be propagated.
    pub fn pooled_transactions(&self) -> (r: Vec<Arc<ValidPoolTransaction>>)
        ensures
            r@ == picked(
                self.by_hash.entries@,
                |tx: Arc<ValidPoolTransaction>| tx.propagate,
                |tx: Arc<ValidPoolTransaction>| tx,
            ),
    {
        let mut r: Vec<Arc<ValidPoolTransaction>> = Vec::new();
        let ghost p = |tx: Arc<ValidPoolTransaction>| tx.propagate;
        let ghost f = |tx: Arc<ValidPoolTransaction>| tx;
        let ghost entries = self.by_hash.entries@;
        let mut i: usize = 0;
        assert(entries.take(0) =~= Seq::empty());
        while i < self.by_hash.entries.len()
            invariant
                entries == self.by_hash.entries@,
                i <= entries.len(),
                p == (|tx: Arc<ValidPoolTransaction>| tx.propagate),
                f == (|tx: Arc<ValidPoolTransaction>| tx),
                r@ == picked(entries.take(i as int), p, f),
            decreases entries.len() - i,
        {
            assert(entries.take(i + 1).drop_last() =~= entries.take(i as int));
            if self.by_hash.entries[i].1.propagate {
                r.push(share(&self.by_hash.entries[i].1));
            }
            i = i + 1;
        }
        assert(entries.take(i as int) =~= entries);
        r
    }

    /// Returns hashes of transactions in the pool that can be propagated.
    pub fn pooled_transactions_hashes(&self) -> (r: Vec<TxHash>)
        ensures
            r@ == picked(
                self.by_hash.entries@,
                |tx: Arc<ValidPoolTransaction>| tx.propagate,
                |tx: Arc<ValidPoolTransaction>| tx.spec_hash(),
            ),
    {
        let mut r: Vec<TxHash> = Vec::new();
        let ghost p = |tx: Arc<ValidPoolTransaction>| tx.propagate;
        let ghost f = |tx: Arc<ValidPoolTransaction>| tx.spec_hash();
        let ghost entries = self.by_hash.entries@;
        let mut i: usize = 0;
        assert(entries.take(0) =~= Seq::empty());
        while i < self.by_hash.entries.len()
            invariant
                entries == self.by_hash.entries@,
                i <= entries.len(),
                p == (|tx: Arc<ValidPoolTransaction>| tx.propagate),
                f == (|tx: Arc<ValidPoolTransaction>| tx.spec_hash()),
                r@ == picked(entries.take(i as int), p, f),
            decreases entries.len() - i,
        {
            assert(entries.take(i + 1).drop_last() =~= entries.take(i as int));
            if self.by_hash.entries[i].1.propagate {
                r.push(*self.by_hash.entries[i].1.hash());
            }
            i = i + 1;
        }
        assert(entries.take(i as int) =~= entries);
        r
    }

    /// Returns the transactions of the given hashes that are in the pool.
    pub fn get_all(&self, tx_hashes: &[TxHash]) -> (r: Vec<Arc<ValidPoolTransaction>>)
        requires
            self.wf(),
        ensures
            r@ == looked_up(self@.by_hash, tx_hashes@),
    {
        let mut r: Vec<Arc<ValidPoolTransaction>> = Vec::new();
        let mut i: usize = 0;
        assert(tx_hashes@.take(0) =~= Seq::empty());
        while i < tx_hashes.len()
            invariant
                self.wf(),
                i <= tx_hashes@.len(),
                r@ == looked_up(self@.by_hash, tx_hashes@.take(i as int)),
            decreases tx_hashes@.len() - i,
        {
            assert(tx_hashes@.take(i + 1).drop_last() =~= tx_hashes@.take(i as int));
            match self.get(&tx_hashes[i]) {
                Some(tx) => {
                    r.push(tx);
                },
                None => {},
            }
            i = i + 1;
        }
        assert(tx_hashes@.take(i as int) =~= tx_hashes@);
        r
    }

    /// Appends the transactions of the given hashes to `out` while respecting the size limit.
    ///
    /// The lengths of the encoded transactions are added to `accumulated_size`; the transaction
    /// that takes it above the limit is the last.
    pub fn append_pooled_transaction_elements(
        &self,
        tx_hashes: &[TxHash],
        limit: GetPooledTransactionLimit,
        accumulated_size: &mut usize,
        out: &mut Vec<Arc<ValidPoolTransaction>>,
    )
        requires
            self.wf(),
            looked_up_within(
                self@.by_hash,
                tx_hashes@,
                limit,
                *old(accumulated_size) as int,
            ).1 <= usize::MAX,
        ensures
            *final(accumulated_size) == looked_up_within(
                self@.by_hash,
                tx_hashes@,
                limit,
                *old(accumulated_size) as int,
            ).1,
            final(out)@ == old(out)@ + looked_up_within(
                self@.by_hash,
                tx_hashes@,
                limit,
                *old(accumulated_size) as int,
            ).0,
    {
        let ghost by_hash = self@.by_hash;
        let ghost whole = looked_up_within(
            by_hash,
            tx_hashes@,
            limit,
            *accumulated_size as int,
        );
        let ghost start = out@;
        let mut i: usize = 0;
        assert(tx_hashes@.skip(0) =~= tx_hashes@);
        assert(out@ + whole.0 =~= start + whole.0);
        while i < tx_hashes.len()
            invariant_except_break
                self.wf(),
                by_hash == self@.by_hash,
                i <= tx_hashes@.len(),
                whole.1 <= usize::MAX,
                start + whole.0 == out@ + looked_up_within(
                    by_hash,
                    tx_hashes@.skip(i as int),
                    limit,
                    *accumulated_size as int,
                ).0,
                whole.1 == looked_up_within(
                    by_hash,
                    tx_hashes@.skip(i as int),
                    limit,
                    *accumulated_size as int,
                ).1,
            ensures
                start + whole.0 == out@,
                whole.1 == *accumulated_size,
            decreases tx_hashes@.len() - i,
        {
            let ghost rest = tx_hashes@.skip(i as int);
            let ghost size = *accumulated_size as int;
            assert(rest.drop_first() =~= tx_hashes@.skip(i + 1));
            match self.by_hash.get(&tx_hashes[i]) {
                Some(tx) => {
                    proof {
                        lemma_looked_up_grows(
                            by_hash,
                            rest.drop_first(),
                            limit,
                            size + tx.transaction.inner.encoded_length,
                        );
                    }
                    *accumulated_size = *accumulated_size + tx.transaction.inner.encoded_length;
                    let ghost sofar = out@;
                    out.push(share(tx));
                    if limit.exceeds(*accumulated_size) {
                        assert(out@ =~= sofar + seq![*tx]);
                        break;
                    }
                    proof {
                        let more = looked_up_within(
                            by_hash,
                            rest.drop_first(),
                            limit,
                            *accumulated_size as int,
                        );
                        assert(sofar + (seq![*tx] + more.0) =~= out@ + more.0);
                    }
                },
                None => {},
            }
            i = i + 1;
            proof {
                if i == tx_hashes@.len() {
                    assert(tx_hashes@.skip(i as int) =~= Seq::empty());
                    assert(out@ + Seq::<Arc<ValidPoolTransaction>>::empty() =~= out@);
                }
            }
        }
    }
}

/// Looking up more transactions never shrinks the size.
proof fn lemma_looked_up_grows(
    by_hash: Map<TxHash, Arc<ValidPoolTransaction>>,
    hashes: Seq<TxHash>,
    limit: GetPooledTransactionLimit,
    size: int,
)
    ensures
        size <= looked_up_within(by_hash, hashes, limit, size).1,
    decreases hashes.len(),
{
    if hashes.len() == 0 {
    } else if !by_hash.contains_key(hashes[0]) {
        lemma_looked_up_grows(by_hash, hashes.drop_first(), limit, size);
    } else {
        let larger = size + by_hash[hashes[0]].transaction.inner.encoded_length;
        lemma_looked_up_grows(by_hash, hashes.drop_first(), limit, larger);
    }
}

} // verus!
