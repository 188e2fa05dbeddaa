//! Properties of sequences of queue operations, stated over the step
//! functions that the operations' contracts use.

use vstd::math::min;
use vstd::prelude::*;

use crate::queue::{bulk_enqueue_step, dequeue_step, enqueue_step, Queue};
use crate::ring::slot_run_len;

verus! {

/// The items of a queue that held `items` and had room for `cap`, after
/// `enqueue` was called with each of `offered` in turn.
pub open spec fn after_enqueues<T>(items: Seq<T>, cap: nat, offered: Seq<T>) -> Seq<T>
    decreases offered.len(),
{
    if offered.len() == 0 {
        items
    } else {
        after_enqueues(enqueue_step(items, cap, offered[0]).0, cap, offered.drop_first())
    }
}

/// The items of a queue that held `items`, after `dequeue` was called `n`
/// times, and the items those calls returned, in order.
pub open spec fn after_dequeues<T>(items: Seq<T>, n: nat) -> (Seq<T>, Seq<T>)
    decreases n,
{
    if n == 0 {
        (items, Seq::empty())
    } else {
        let (rest, out) = dequeue_step(items);
        let (last, outs) = after_dequeues(rest, (n - 1) as nat);
        match out {
            Some(x) => (last, seq![x] + outs),
            None => (last, outs),
        }
    }
}

/// A well-formed queue never holds more items than its capacity, and every
/// operation keeps a queue well-formed.
pub proof fn lemma_capacity_bound<Q: Queue>(q: &Q)
    requires
        q.wf(),
    ensures
        0 <= q.items().len() <= q.cap(),
{
    q.lemma_shape();
}

/// Enqueueing that finds room appends each offered item in turn.
pub proof fn lemma_enqueues_append<T>(items: Seq<T>, cap: nat, offered: Seq<T>)
    requires
        items.len() + offered.len() <= cap,
    ensures
        after_enqueues(items, cap, offered) == items + offered,
    decreases offered.len(),
{
    if offered.len() > 0 {
        lemma_enqueues_append(items.push(offered[0]), cap, offered.drop_first());
        assert(items.push(offered[0]) + offered.drop_first() =~= items + offered);
    } else {
        assert(items + offered =~= items);
    }
}

/// Dequeueing as many times as there are items hands them all out, oldest
/// first, and leaves the queue empty.
pub proof fn lemma_dequeues_drain<T>(items: Seq<T>)
    ensures
        after_dequeues(items, items.len()) == (Seq::<T>::empty(), items),
    decreases items.len(),
{
    if items.len() > 0 {
        lemma_dequeues_drain(items.drop_first());
        assert(seq![items[0]] + items.drop_first() =~= items);
    } else {
        assert(items =~= Seq::<T>::empty());
    }
}

/// Items enqueued while there is room come out of as many dequeues in the
/// order they went in, after those that were already queued.
pub proof fn lemma_fifo<T>(items: Seq<T>, cap: nat, offered: Seq<T>)
    requires
        items.len() + offered.len() <= cap,
    ensures
        after_dequeues(after_enqueues(items, cap, offered), items.len() + offered.len()) == (
            Seq::<T>::empty(),
            items + offered,
        ),
{
    lemma_enqueues_append(items, cap, offered);
    lemma_dequeues_drain(items + offered);
}

/// On an empty queue with room for at least one item, enqueueing an item and
/// then dequeueing returns that item and leaves the queue empty.
pub proof fn lemma_round_trip<T>(cap: nat, item: T)
    requires
        cap >= 1,
    ensures
        enqueue_step(Seq::<T>::empty(), cap, item).1 is None,
        dequeue_step(enqueue_step(Seq::<T>::empty(), cap, item).0) == (
            Seq::<T>::empty(),
            Some(item),
        ),
{
    assert(Seq::<T>::empty().push(item).drop_first() =~= Seq::<T>::empty());
}

/// Filling an empty queue of capacity `cap` with `cap` items, then offering
/// one more, hands that item back and leaves the `cap` items in place.
pub proof fn lemma_full_rejection<T>(cap: nat, offered: Seq<T>, item: T)
    requires
        offered.len() == cap,
    ensures
        after_enqueues(Seq::<T>::empty(), cap, offered) == offered,
        enqueue_step(offered, cap, item) == (offered, Some(item)),
{
    lemma_enqueues_append(Seq::<T>::empty(), cap, offered);
    assert(Seq::<T>::empty() + offered =~= offered);
}

/// Dequeueing from an empty queue returns nothing and changes nothing.
pub proof fn lemma_empty_rejection<T>()
    ensures
        dequeue_step(Seq::<T>::empty()) == (Seq::<T>::empty(), None::<T>),
{
}

/// `bulk_enqueue` leaves the same items as calling `enqueue` with each item
/// of the buffer in turn, wherever its next run of free slots takes the whole
/// buffer or spans all the free space. (Where the free space wraps around the
/// end of the storage and the buffer is longer than the first run,
/// `bulk_enqueue` takes only that run.)
pub proof fn lemma_bulk_enqueue_as_single<Q: Queue>(q: &Q, buffer: Seq<Q::Item>)
    requires
        q.wf(),
        buffer.len() <= slot_run_len(q.cap(), q.head(), q.items().len()) || slot_run_len(
            q.cap(),
            q.head(),
            q.items().len(),
        ) == q.cap() - q.items().len(),
    ensures
        bulk_enqueue_step(
            q.items(),
            slot_run_len(q.cap(), q.head(), q.items().len()),
            buffer,
        ).0 == after_enqueues(q.items(), q.cap(), buffer),
{
    q.lemma_shape();
    lemma_enqueues_take(q.items(), q.cap(), buffer);
}

/// Calling `enqueue` with each item of `offered` appends as many of them as
/// there is room for.
pub proof fn lemma_enqueues_take<T>(items: Seq<T>, cap: nat, offered: Seq<T>)
    requires
        items.len() <= cap,
    ensures
        after_enqueues(items, cap, offered) == items + offered.take(
            min(offered.len() as int, cap - items.len()),
        ),
    decreases offered.len(),
{
    if offered.len() == 0 {
        assert(items + offered.take(0) =~= items);
    } else if items.len() == cap {
        lemma_enqueues_take(items, cap, offered.drop_first());
        assert(items + offered.take(0) =~= items);
        assert(items + offered.drop_first().take(0) =~= items);
    } else {
        lemma_enqueues_take(items.push(offered[0]), cap, offered.drop_first());
        let m = min(offered.len() as int, cap - items.len());
        assert(items.push(offered[0]) + offered.drop_first().take(m - 1) =~= items
            + offered.take(m));
    }
}

/// Dequeueing `n` items one at a time, where there are at least `n`, hands
/// out the first `n` items and leaves the rest: what `bulk_dequeue` does when
/// it reports `n` items taken.
pub proof fn lemma_bulk_dequeue_as_single<T>(items: Seq<T>, n: nat)
    requires
        n <= items.len(),
    ensures
        after_dequeues(items, n) == (items.skip(n as int), items.take(n as int)),
    decreases n,
{
    if n > 0 {
        lemma_bulk_dequeue_as_single(items.drop_first(), (n - 1) as nat);
        assert(items.drop_first().skip(n - 1) =~= items.skip(n as int));
        assert(seq![items[0]] + items.drop_first().take(n - 1) =~= items.take(n as int));
    } else {
        assert(items.skip(0) =~= items);
        assert(items.take(0) =~= Seq::<T>::empty());
    }
}

} // verus!
