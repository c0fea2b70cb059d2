//! What holds of a whole run of the merging iterator, while its sources take up nothing new.
use crate::best::{aa_2d_fetched, merged, priced, protocol_fetched, MergeState};
use crate::best_2d::{advanced, fed, popped, BestState, MAX_NEW_TRANSACTIONS_PER_BATCH};
use crate::best_left::{best_sound, law_step_takes_one, upper};
use crate::best_protocol::{ProtocolBestTransactions, QueueState};
use crate::best_transactions::{BestTransaction, BestTransactions};
use crate::pending::Priority;
use vstd::prelude::*;

verus! {

/// A transaction and its priority.
pub type Ranked = (BestTransaction, Priority);

/// Two lists merged: of the two first transactions the one with the higher priority goes first,
/// on a tie the one of the first list.
pub open spec fn merge(first: Seq<Ranked>, second: Seq<Ranked>) -> Seq<Ranked>
    decreases first.len() + second.len(),
{
    if first.len() == 0 {
        second
    } else if second.len() == 0 {
        first
    } else if first[0].1.rank() >= second[0].1.rank() {
        seq![first[0]] + merge(first.drop_first(), second)
    } else {
        seq![second[0]] + merge(first, second.drop_first())
    }
}

/// Which transactions of the merged lists come from the first list.
pub open spec fn origins(first: Seq<Ranked>, second: Seq<Ranked>) -> Seq<bool>
    decreases first.len() + second.len(),
{
    if first.len() == 0 {
        second.map_values(|tx: Ranked| false)
    } else if second.len() == 0 {
        first.map_values(|tx: Ranked| true)
    } else if first[0].1.rank() >= second[0].1.rank() {
        seq![true] + origins(first.drop_first(), second)
    } else {
        seq![false] + origins(first, second.drop_first())
    }
}

/// The transactions of a list that come from the first list, or those that do not, in their order.
pub open spec fn of_origin(list: Seq<Ranked>, origins: Seq<bool>, from_first: bool) -> Seq<Ranked>
    decreases list.len(),
{
    if list.len() == 0 {
        Seq::empty()
    } else {
        let rest = of_origin(list.drop_first(), origins.drop_first(), from_first);
        if origins[0] == from_first {
            seq![list[0]] + rest
        } else {
            rest
        }
    }
}

/// No transaction of the list has a higher priority than one before it.
pub open spec fn best_first(list: Seq<Ranked>) -> bool {
    forall|i: int, j: int|
        #![trigger list[i], list[j]]
        0 <= i <= j < list.len() ==> list[i].1.rank() >= list[j].1.rank()
}

proof fn lemma_all_of_origin(list: Seq<Ranked>, origins: Seq<bool>, from_first: bool)
    requires
        origins.len() == list.len(),
        forall|i: int| 0 <= i < list.len() ==> #[trigger] origins[i] == from_first,
    ensures
        of_origin(list, origins, from_first) == list,
        of_origin(list, origins, !from_first) == Seq::<Ranked>::empty(),
    decreases list.len(),
{
    if list.len() > 0 {
        lemma_all_of_origin(list.drop_first(), origins.drop_first(), from_first);
        assert(seq![list[0]] + list.drop_first() =~= list);
    } else {
        assert(list =~= Seq::empty());
    }
}

proof fn lemma_merge_step(first: Seq<Ranked>, second: Seq<Ranked>, from_first: bool)
    requires
        first.len() > 0,
        second.len() > 0,
        from_first == (first[0].1.rank() >= second[0].1.rank()),
    ensures
        ({
            let (f, s) = if from_first {
                (first.drop_first(), second)
            } else {
                (first, second.drop_first())
            };
            let list = merge(first, second);
            &&& list.drop_first() == merge(f, s)
            &&& origins(first, second).drop_first() == origins(f, s)
            &&& list.len() > 0
            &&& list[0] == if from_first {
                first[0]
            } else {
                second[0]
            }
            &&& origins(first, second)[0] == from_first
        }),
{
    let (f, s) = if from_first {
        (first.drop_first(), second)
    } else {
        (first, second.drop_first())
    };
    assert(merge(first, second).drop_first() =~= merge(f, s));
    assert(origins(first, second).drop_first() =~= origins(f, s));
}

/// Merging keeps every transaction of both lists, each once and in the order of its list.
pub proof fn law_merge_keeps_both(first: Seq<Ranked>, second: Seq<Ranked>)
    ensures
        merge(first, second).len() == first.len() + second.len(),
        origins(first, second).len() == first.len() + second.len(),
        of_origin(merge(first, second), origins(first, second), true) == first,
        of_origin(merge(first, second), origins(first, second), false) == second,
    decreases first.len() + second.len(),
{
    let list = merge(first, second);
    let from = origins(first, second);
    if first.len() == 0 {
        lemma_all_of_origin(second, from, false);
        assert(first =~= Seq::empty());
    } else if second.len() == 0 {
        lemma_all_of_origin(first, from, true);
        assert(second =~= Seq::empty());
    } else if first[0].1.rank() >= second[0].1.rank() {
        lemma_merge_step(first, second, true);
        law_merge_keeps_both(first.drop_first(), second);
        assert(seq![first[0]] + first.drop_first() =~= first);
    } else {
        lemma_merge_step(first, second, false);
        law_merge_keeps_both(first, second.drop_first());
        assert(seq![second[0]] + second.drop_first() =~= second);
    }
}

proof fn lemma_merge_bounded(first: Seq<Ranked>, second: Seq<Ranked>, bound: Priority)
    requires
        forall|i: int| 0 <= i < first.len() ==> bound.rank() >= (#[trigger] first[i]).1.rank(),
        forall|i: int| 0 <= i < second.len() ==> bound.rank() >= (#[trigger] second[i]).1.rank(),
    ensures
        forall|i: int|
            0 <= i < merge(first, second).len() ==> bound.rank() >= (#[trigger] merge(
                first,
                second,
            )[i]).1.rank(),
    decreases first.len() + second.len(),
{
    if first.len() > 0 && second.len() > 0 {
        let from_first = first[0].1.rank() >= second[0].1.rank();
        let list = merge(first, second);
        lemma_merge_step(first, second, from_first);
        let rest = list.drop_first();
        if from_first {
            lemma_merge_bounded(first.drop_first(), second, bound);
        } else {
            lemma_merge_bounded(first, second.drop_first(), bound);
        }
        assert forall|i: int| 0 <= i < list.len() implies bound.rank() >= (
        #[trigger] list[i]).1.rank() by {
            if i > 0 {
                assert(rest[i - 1] == list[i]);
            }
        }
    }
}

/// If both lists have the best first, so has the merged list.
pub proof fn law_merge_best_first(first: Seq<Ranked>, second: Seq<Ranked>)
    requires
        best_first(first),
        best_first(second),
    ensures
        best_first(merge(first, second)),
    decreases first.len() + second.len(),
{
    if first.len() > 0 && second.len() > 0 {
        let from_first = first[0].1.rank() >= second[0].1.rank();
        let list = merge(first, second);
        lemma_merge_step(first, second, from_first);
        let rest = list.drop_first();
        let (f, s) = if from_first {
            (first.drop_first(), second)
        } else {
            (first, second.drop_first())
        };
        assert(best_first(f)) by {
            if from_first {
                assert forall|i: int, j: int|
                    #![trigger f[i], f[j]]
                    0 <= i <= j < f.len() implies f[i].1.rank() >= f[j].1.rank() by {
                    assert(first[i + 1].1.rank() >= first[j + 1].1.rank());
                }
            }
        }
        assert(best_first(s)) by {
            if !from_first {
                assert forall|i: int, j: int|
                    #![trigger s[i], s[j]]
                    0 <= i <= j < s.len() implies s[i].1.rank() >= s[j].1.rank() by {
                    assert(second[i + 1].1.rank() >= second[j + 1].1.rank());
                }
            }
        }
        law_merge_best_first(f, s);
        let bound = list[0].1;
        assert forall|i: int| 0 <= i < f.len() implies bound.rank() >= (
        #[trigger] f[i]).1.rank() by {
            if from_first {
                assert(first[0].1.rank() >= first[i + 1].1.rank());
            } else {
                assert(first[0].1.rank() >= first[i].1.rank());
            }
        }
        assert forall|i: int| 0 <= i < s.len() implies bound.rank() >= (
        #[trigger] s[i]).1.rank() by {
            if from_first {
                assert(second[0].1.rank() >= second[i].1.rank());
            } else {
                assert(second[0].1.rank() >= second[i + 1].1.rank());
            }
        }
        lemma_merge_bounded(f, s, bound);
        assert forall|i: int, j: int|
            #![trigger list[i], list[j]]
            0 <= i <= j < list.len() implies list[i].1.rank() >= list[j].1.rank() by {
            if i > 0 {
                assert(rest[i - 1].1.rank() >= rest[j - 1].1.rank());
            } else if j > 0 {
                assert(bound.rank() >= rest[j - 1].1.rank());
            }
        }
    }
}

/// The iterator over the protocol pool has come to its end and stays there.
pub open spec fn protocol_ended<P: BestTransactions>(s: P::State) -> bool {
    let (end, tx) = P::stepped(s);
    tx is None && P::stepped(end) == (end, None::<BestTransaction>)
}

/// The iterator over the protocol pool yields exactly the given transactions, here with their
/// priorities at a base fee, and then nothing.
pub open spec fn protocol_yields<P: BestTransactions>(
    s: P::State,
    base_fee: u64,
    list: Seq<Ranked>,
) -> bool
    decreases list.len(),
{
    if list.len() == 0 {
        protocol_ended::<P>(s)
    } else {
        let (after, tx) = P::stepped(s);
        &&& tx is Some
        &&& priced(tx, base_fee) == Some(list[0])
        &&& protocol_yields::<P>(after, base_fee, list.drop_first())
    }
}

/// The iterator over the 2D nonces pool has come to its end and stays there.
pub open spec fn aa_2d_ended(b: BestState) -> bool {
    let end = advanced(b).0;
    advanced(b).1 is None && advanced(end).1 is None && advanced(end).0 == end
}

/// The iterator over the 2D nonces pool yields exactly the given transactions, and then nothing.
pub open spec fn aa_2d_yields(b: BestState, list: Seq<Ranked>) -> bool
    decreases list.len(),
{
    if list.len() == 0 {
        aa_2d_ended(b)
    } else {
        let (after, tx) = advanced(b);
        &&& tx is Some
        &&& list[0] == (tx->0.transaction, tx->0.priority)
        &&& aa_2d_yields(after, list.drop_first())
    }
}

/// The merging iterator yields exactly the given transactions, and then nothing.
pub open spec fn merge_yields<P: BestTransactions>(
    m: MergeState<P::State>,
    list: Seq<Ranked>,
) -> bool
    decreases list.len(),
{
    let (after, taken) = merged::<P>(m);
    if list.len() == 0 {
        taken is None
    } else {
        &&& taken == Some(list[0])
        &&& merge_yields::<P>(after, list.drop_first())
    }
}

/// What is still to come of the protocol pool, with what was fetched of it.
spec fn protocol_to_come<P: BestTransactions>(
    m: MergeState<P::State>,
    list: Seq<Ranked>,
) -> bool {
    match m.next_protocol {
        Some(next) => list.len() > 0 && next == list[0] && protocol_yields::<P>(
            m.protocol,
            m.base_fee,
            list.drop_first(),
        ),
        None => protocol_yields::<P>(m.protocol, m.base_fee, list),
    }
}

/// What is still to come of the 2D nonces pool, with what was fetched of it.
spec fn aa_2d_to_come<S>(m: MergeState<S>, list: Seq<Ranked>) -> bool {
    match m.next_aa_2d {
        Some(next) => list.len() > 0 && next == list[0] && aa_2d_yields(
            m.aa_2d,
            list.drop_first(),
        ),
        None => aa_2d_yields(m.aa_2d, list),
    }
}

proof fn lemma_merge_run<P: BestTransactions>(
    m: MergeState<P::State>,
    protocol: Seq<Ranked>,
    aa_2d: Seq<Ranked>,
)
    requires
        protocol_to_come::<P>(m, protocol),
        aa_2d_to_come(m, aa_2d),
    ensures
        merge_yields::<P>(m, merge(protocol, aa_2d)),
    decreases protocol.len() + aa_2d.len(),
{
    let ready = aa_2d_fetched(protocol_fetched::<P>(m));
    let (after, taken) = merged::<P>(m);
    let list = merge(protocol, aa_2d);
    assert(protocol_to_come::<P>(ready, protocol));
    assert(aa_2d_to_come(ready, aa_2d));
    assert(ready.next_protocol is Some <==> protocol.len() > 0);
    assert(ready.next_aa_2d is Some <==> aa_2d.len() > 0);
    if protocol.len() == 0 && aa_2d.len() == 0 {
    } else if protocol.len() == 0 {
        lemma_merge_run::<P>(after, protocol, aa_2d.drop_first());
        assert(list == aa_2d);
    } else if aa_2d.len() == 0 {
        lemma_merge_run::<P>(after, protocol.drop_first(), aa_2d);
        assert(list == protocol);
        if protocol.drop_first().len() == 0 {
            assert(merge(protocol.drop_first(), aa_2d) =~= protocol.drop_first());
        }
    } else if protocol[0].1.rank() >= aa_2d[0].1.rank() {
        lemma_merge_step(protocol, aa_2d, true);
        lemma_merge_run::<P>(after, protocol.drop_first(), aa_2d);
    } else {
        lemma_merge_step(protocol, aa_2d, false);
        lemma_merge_run::<P>(after, protocol, aa_2d.drop_first());
    }
}

/// The merging iterator yields what its two sources yield, merged: every transaction of both, each
/// once and in the order of its source, always the better of the two next ones, and nothing only
/// once both are at their end.
pub proof fn law_merge_run<P: BestTransactions>(
    m: MergeState<P::State>,
    protocol: Seq<Ranked>,
    aa_2d: Seq<Ranked>,
)
    requires
        m.next_protocol is None,
        m.next_aa_2d is None,
        protocol_yields::<P>(m.protocol, m.base_fee, protocol),
        aa_2d_yields(m.aa_2d, aa_2d),
    ensures
        merge_yields::<P>(m, merge(protocol, aa_2d)),
        merge(protocol, aa_2d).len() == protocol.len() + aa_2d.len(),
        best_first(protocol) && best_first(aa_2d) ==> best_first(merge(protocol, aa_2d)),
{
    lemma_merge_run::<P>(m, protocol, aa_2d);
    law_merge_keeps_both(protocol, aa_2d);
    if best_first(protocol) && best_first(aa_2d) {
        law_merge_best_first(protocol, aa_2d);
    }
}

/// What the iterator over the 2D nonces pool has still to yield if it takes up nothing new.
pub open spec fn aa_2d_rest(b: BestState) -> Seq<Ranked>
    decreases upper(b),
    when best_sound(b) && b.feed is None
{
    let (after, tx) = advanced(b);
    match tx {
        Some(tx) => {
            proof {
                law_step_takes_one(b);
            }
            seq![(tx.transaction, tx.priority)] + aa_2d_rest(after)
        },
        None => Seq::empty(),
    }
}

proof fn lemma_end_is_empty(b: BestState)
    requires
        b.feed is None,
        advanced(b).1 is None,
    ensures
        advanced(b).0.feed is None,
        advanced(b).0.independent.len() == 0,
    decreases b.independent.len(),
{
    assert(fed(b, MAX_NEW_TRANSACTIONS_PER_BATCH as nat) == b);
    if b.independent.len() > 0 {
        lemma_end_is_empty(popped(b));
    }
}

/// While it takes up nothing new, the iterator over the 2D nonces pool comes to an end and stays
/// there.
pub proof fn law_aa_2d_ends(b: BestState)
    requires
        best_sound(b),
        b.feed is None,
    ensures
        aa_2d_yields(b, aa_2d_rest(b)),
    decreases upper(b),
{
    law_step_takes_one(b);
    let (after, tx) = advanced(b);
    match tx {
        Some(tx) => {
            law_aa_2d_ends(after);
            assert(aa_2d_rest(b).drop_first() =~= aa_2d_rest(after));
        },
        None => {
            lemma_end_is_empty(b);
            assert(fed(after, MAX_NEW_TRANSACTIONS_PER_BATCH as nat) == after);
        },
    }
}

/// The transactions of a queue with their priorities at a base fee.
pub open spec fn priced_queue(queue: Seq<BestTransaction>, base_fee: u64) -> Seq<Ranked> {
    queue.map_values(|tx: BestTransaction| priced(Some(tx), base_fee)->0)
}

proof fn lemma_queue_ends(s: QueueState, base_fee: u64)
    ensures
        protocol_yields::<ProtocolBestTransactions>(s, base_fee, priced_queue(s.queue, base_fee)),
    decreases s.queue.len(),
{
    if s.queue.len() > 0 {
        let after = ProtocolBestTransactions::stepped(s).0;
        lemma_queue_ends(after, base_fee);
        assert(priced_queue(s.queue, base_fee).drop_first() =~= priced_queue(
            after.queue,
            base_fee,
        ));
    }
}

/// Over a queue of protocol transactions and an iterator that takes up nothing new, the merging
/// iterator yields the whole queue and everything that the iterator would yield, merged, and then
/// nothing.
pub proof fn law_merge_over_queue(m: MergeState<QueueState>)
    requires
        m.next_protocol is None,
        m.next_aa_2d is None,
        best_sound(m.aa_2d),
        m.aa_2d.feed is None,
    ensures
        merge_yields::<ProtocolBestTransactions>(
            m,
            merge(priced_queue(m.protocol.queue, m.base_fee), aa_2d_rest(m.aa_2d)),
        ),
{
    lemma_queue_ends(m.protocol, m.base_fee);
    law_aa_2d_ends(m.aa_2d);
    law_merge_run::<ProtocolBestTransactions>(
        m,
        priced_queue(m.protocol.queue, m.base_fee),
        aa_2d_rest(m.aa_2d),
    );
}

} // verus!
