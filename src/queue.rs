//! The queue capability shared by every storage variant.

use core::mem::MaybeUninit;

use vstd::math::min;
use vstd::prelude::*;
use vstd::std_specs::maybe_uninit::MaybeUninitAdditionalSpecFns;

use crate::ring::{item_run_len, ring_index, slot_run_len};

verus! {

/// What `enqueue(item)` does to a queue that holds `items` and has room for
/// `cap`: the items afterwards, and what the call returns.
pub open spec fn enqueue_step<T>(items: Seq<T>, cap: nat, item: T) -> (Seq<T>, Option<T>) {
    if items.len() < cap {
        (items.push(item), None)
    } else {
        (items, Some(item))
    }
}

/// What `dequeue()` does to a queue that holds `items`: the items afterwards,
/// and what the call returns.
pub open spec fn dequeue_step<T>(items: Seq<T>) -> (Seq<T>, Option<T>) {
    if items.len() == 0 {
        (items, None)
    } else {
        (items.drop_first(), Some(items[0]))
    }
}

/// What `bulk_enqueue(buffer)` does to a queue that holds `items` and whose
/// next run of free slots is `run` long: the items afterwards, and how many
/// were taken from the front of `buffer`.
pub open spec fn bulk_enqueue_step<T>(items: Seq<T>, run: nat, buffer: Seq<T>) -> (Seq<T>, nat) {
    let n = min(buffer.len() as int, run as int) as nat;
    (items + buffer.take(n as int), n)
}

/// A first-in-first-out queue of bounded capacity, with bulk transfer through
/// regions of its storage that it exposes to the caller.
///
/// The storage is a ring of `cap()` slots. The live items lie in it from
/// position `head()` on, wrapping past the end. `expose_slots` and
/// `expose_items` each hand out one contiguous run of the storage: the free
/// slots after the last item, and the items from `head()` on, each up to the
/// end of the storage at most.
pub trait Queue: Sized {
    /// The type of the items in the queue.
    type Item: Copy;

    /// The queue's internal state is consistent.
    spec fn wf(&self) -> bool;

    /// The live items, oldest first.
    spec fn items(&self) -> Seq<Self::Item>;

    /// The greatest number of items the queue holds.
    spec fn cap(&self) -> nat;

    /// Position in the storage of the oldest item; where the next item will
    /// be read from.
    spec fn head(&self) -> nat;

    /// What the storage holds in the run of free slots that `expose_slots`
    /// hands out next; empty when the queue is full.
    spec fn slot_run(&self) -> Seq<Self::Item>;

    /// The shape of a consistent queue.
    proof fn lemma_shape(&self)
        requires
            self.wf(),
        ensures
            self.items().len() <= self.cap(),
            self.head() < self.cap() || (self.head() == 0 && self.cap() == 0),
            self.slot_run().len() == slot_run_len(self.cap(), self.head(), self.items().len()),
    ;

    /// The number of items in the queue.
    fn len(&self) -> (r: usize)
        requires
            self.wf(),
        ensures
            r == self.items().len(),
    ;

    /// Enqueue `item`, or hand it back when the queue is full.
    fn enqueue(&mut self, item: Self::Item) -> (r: Option<Self::Item>)
        requires
            old(self).wf(),
        ensures
            final(self).wf(),
            final(self).cap() == old(self).cap(),
            final(self).head() == old(self).head(),
            (final(self).items(), r) == enqueue_step(old(self).items(), old(self).cap(), item),
    ;

    /// Expose the next run of free slots for the caller to fill, or `None`
    /// when the queue is full. What the caller leaves in the run becomes the
    /// queue's `slot_run`; `consider_enqueued` then makes a prefix of it live.
    /// (A slice cannot change its length through a borrow; the guarantees
    /// about the queue afterwards are stated under that fact.)
    fn expose_slots(&mut self) -> (r: Option<&mut [Self::Item]>)
        requires
            old(self).wf(),
        ensures
            r is None <==> old(self).items().len() == old(self).cap(),
            r is None ==> {
                &&& final(self).wf()
                &&& final(self).cap() == old(self).cap()
                &&& final(self).head() == old(self).head()
                &&& final(self).items() == old(self).items()
            },
            r matches Some(s) ==> s@ == old(self).slot_run(),
            r matches Some(s) ==> (final(s)@.len() == s@.len() ==> {
                &&& final(self).wf()
                &&& final(self).cap() == old(self).cap()
                &&& final(self).head() == old(self).head()
                &&& final(self).items() == old(self).items()
                &&& final(self).slot_run() == final(s)@
            }),
    ;

    /// Count the first `amount` values of the run that `expose_slots` handed
    /// out as enqueued, as if `enqueue` had been called with each of them.
    fn consider_enqueued(&mut self, amount: usize)
        requires
            old(self).wf(),
            amount <= old(self).slot_run().len(),
        ensures
            final(self).wf(),
            final(self).cap() == old(self).cap(),
            final(self).head() == old(self).head(),
            final(self).items() == old(self).items() + old(self).slot_run().take(amount as int),
    ;

    /// Whether the queue holds no item.
    fn is_empty(&self) -> (r: bool)
        requires
            self.wf(),
        ensures
            r == (self.items().len() == 0),
    {
        self.len() == 0
    }

    /// Enqueue as many items from the front of `buffer` as the next run of
    /// free slots takes, and return how many that was: zero when the queue is
    /// full or `buffer` is empty.
    fn bulk_enqueue(&mut self, buffer: &[Self::Item]) -> (r: usize)
        requires
            old(self).wf(),
        ensures
            final(self).wf(),
            final(self).cap() == old(self).cap(),
            final(self).head() == old(self).head(),
            (final(self).items(), r as nat) == bulk_enqueue_step(
                old(self).items(),
                slot_run_len(old(self).cap(), old(self).head(), old(self).items().len()),
                buffer@,
            ),
    {
        proof {
            self.lemma_shape();
        }
        match self.expose_slots() {
            None => 0,
            Some(slots) => {
                let ghost exposed = slots@;
                let amount = if slots.len() < buffer.len() {
                    slots.len()
                } else {
                    buffer.len()
                };
                let mut i: usize = 0;
                while i < amount
                    invariant
                        amount <= slots@.len(),
                        amount <= buffer@.len(),
                        i <= amount,
                        slots@.len() == exposed.len(),
                        forall|j: int| 0 <= j < i ==> slots@[j] == buffer@[j],
                    decreases amount - i,
                {
                    slots[i] = buffer[i];
                    i = i + 1;
                }
                assert(slots@.take(amount as int) =~= buffer@.take(amount as int));
                self.consider_enqueued(amount);
                amount
            },
        }
    }

    /// Dequeue the oldest item, or return `None` when the queue is empty.
    fn dequeue(&mut self) -> (r: Option<Self::Item>)
        requires
            old(self).wf(),
        ensures
            final(self).wf(),
            final(self).cap() == old(self).cap(),
            final(self).head() == if old(self).items().len() == 0 {
                old(self).head()
            } else {
                ring_index(old(self).cap(), old(self).head(), 1)
            },
            (final(self).items(), r) == dequeue_step(old(self).items()),
    ;

    /// Expose the next run of live items, oldest first, or `None` when the
    /// queue is empty. `consider_dequeued` then drops a prefix of them.
    fn expose_items(&mut self) -> (r: Option<&[Self::Item]>)
        requires
            old(self).wf(),
        ensures
            final(self).wf(),
            final(self).cap() == old(self).cap(),
            final(self).head() == old(self).head(),
            final(self).items() == old(self).items(),
            r is None <==> old(self).items().len() == 0,
            r matches Some(s) ==> s@ == old(self).items().take(
                item_run_len(old(self).cap(), old(self).head(), old(self).items().len()) as int,
            ),
    ;

    /// Drop the first `amount` items of the run that `expose_items` handed
    /// out, as if `dequeue` had been called `amount` times.
    fn consider_dequeued(&mut self, amount: usize)
        requires
            old(self).wf(),
            amount <= item_run_len(old(self).cap(), old(self).head(), old(self).items().len()),
        ensures
            final(self).wf(),
            final(self).cap() == old(self).cap(),
            final(self).head() == ring_index(old(self).cap(), old(self).head(), amount as nat),
            final(self).items() == old(self).items().skip(amount as int),
    ;

    /// Dequeue as many items as `buffer` takes from the next run of live
    /// items into the front of `buffer`, and return how many that was: zero
    /// when the queue is empty or `buffer` is empty.
    fn bulk_dequeue(&mut self, buffer: &mut [Self::Item]) -> (r: usize)
        requires
            old(self).wf(),
        ensures
            final(self).wf(),
            final(self).cap() == old(self).cap(),
            r == min(
                old(buffer)@.len() as int,
                item_run_len(old(self).cap(), old(self).head(), old(self).items().len()) as int,
            ),
            final(self).head() == ring_index(old(self).cap(), old(self).head(), r as nat),
            final(buffer)@ == old(self).items().take(r as int) + old(buffer)@.skip(r as int),
            final(self).items() == old(self).items().skip(r as int),
    {
        proof {
            self.lemma_shape();
        }
        match self.expose_items() {
            None => 0,
            Some(items) => {
                let amount = if items.len() < buffer.len() {
                    items.len()
                } else {
                    buffer.len()
                };
                let mut i: usize = 0;
                while i < amount
                    invariant
                        amount <= items@.len(),
                        amount <= buffer@.len(),
                        i <= amount,
                        buffer@.len() == old(buffer)@.len(),
                        forall|j: int| 0 <= j < i ==> buffer@[j] == items@[j],
                        forall|j: int| i <= j < buffer@.len() ==> buffer@[j] == old(buffer)@[j],
                    decreases amount - i,
                {
                    buffer[i] = items[i];
                    i = i + 1;
                }
                assert(buffer@ =~= items@.take(amount as int) + old(buffer)@.skip(amount as int));
                self.consider_dequeued(amount);
                amount
            },
        }
    }

    /// As `bulk_dequeue`, into a buffer whose slots need not hold values yet.
    fn bulk_dequeue_uninit(&mut self, buffer: &mut [MaybeUninit<Self::Item>]) -> (r: usize)
        requires
            old(self).wf(),
        ensures
            final(self).wf(),
            final(self).cap() == old(self).cap(),
            r == min(
                old(buffer)@.len() as int,
                item_run_len(old(self).cap(), old(self).head(), old(self).items().len()) as int,
            ),
            final(self).head() == ring_index(old(self).cap(), old(self).head(), r as nat),
            final(buffer)@.len() == old(buffer)@.len(),
            forall|j: int|
                0 <= j < r ==> (#[trigger] final(buffer)@[j]).as_option() == Some(
                    old(self).items()[j],
                ),
            forall|j: int|
                r <= j < old(buffer)@.len() ==> #[trigger] final(buffer)@[j] == old(buffer)@[j],
            final(self).items() == old(self).items().skip(r as int),
    {
        proof {
            self.lemma_shape();
        }
        match self.expose_items() {
            None => 0,
            Some(items) => {
                let amount = if items.len() < buffer.len() {
                    items.len()
                } else {
                    buffer.len()
                };
                let mut i: usize = 0;
                while i < amount
                    invariant
                        amount <= items@.len(),
                        amount <= buffer@.len(),
                        i <= amount,
                        buffer@.len() == old(buffer)@.len(),
                        forall|j: int|
                            0 <= j < i ==> (#[trigger] buffer@[j]).as_option() == Some(items@[j]),
                        forall|j: int| i <= j < buffer@.len() ==> buffer@[j] == old(buffer)@[j],
                    decreases amount - i,
                {
                    buffer[i] = MaybeUninit::new(items[i]);
                    i = i + 1;
                }
                self.consider_dequeued(amount);
                amount
            },
        }
    }
}

} // verus!
