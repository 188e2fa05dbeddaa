//! A queue whose ring lives in an array inside the queue value itself.

use vstd::prelude::*;

use crate::queue::Queue;
use crate::ring::{lemma_run_bounds, Cursor};

verus! {

/// A queue holding up to `N` items, in storage inside the queue value.
/// Performs no allocation.
pub struct Static<T, const N: usize> {
    /// The ring.
    data: [T; N],
    /// Where the live items lie in `data`.
    cur: Cursor,
}

impl<T: Copy + Default, const N: usize> Static<T, N> {
    /// An empty queue for `N` items.
    pub fn new() -> (r: Self)
        ensures
            r.wf(),
            r.cap() == N,
            r.items() == Seq::<T>::empty(),
            r.head() == 0,
    {
        Static { data: [T::default(); N], cur: Cursor::new() }
    }
}

impl<T: Copy + Default, const N: usize> Default for Static<T, N> {
    fn default() -> (r: Self)
        ensures
            r.wf(),
            r.cap() == N,
            r.items() == Seq::<T>::empty(),
            r.head() == 0,
    {
        Self::new()
    }
}

impl<T: Copy, const N: usize> Queue for Static<T, N> {
    type Item = T;

    closed spec fn wf(&self) -> bool {
        self.cur.valid(self.data@.len())
    }

    closed spec fn items(&self) -> Seq<T> {
        self.cur.items_in(self.data@)
    }

    closed spec fn cap(&self) -> nat {
        self.data@.len()
    }

    closed spec fn head(&self) -> nat {
        self.cur.read as nat
    }

    closed spec fn slot_run(&self) -> Seq<T> {
        self.cur.slot_run_in(self.data@)
    }

    proof fn lemma_shape(&self) {
        lemma_run_bounds(self.cur, self.data@);
        assert(self.slot_run() == self.cur.slot_run_in(self.data@));
    }

    fn len(&self) -> (r: usize) {
        self.cur.amount
    }

    fn enqueue(&mut self, item: T) -> (r: Option<T>) {
        self.cur.enqueue_into(&mut self.data, item)
    }

    fn expose_slots(&mut self) -> (r: Option<&mut [T]>) {
        self.cur.free_run(&mut self.data)
    }

    fn consider_enqueued(&mut self, amount: usize) {
        self.cur.commit_enqueued(self.data.as_slice(), amount);
    }

    fn dequeue(&mut self) -> (r: Option<T>) {
        self.cur.dequeue_from(self.data.as_slice())
    }

    fn expose_items(&mut self) -> (r: Option<&[T]>) {
        self.cur.live_run(self.data.as_slice())
    }

    fn consider_dequeued(&mut self, amount: usize) {
        self.cur.commit_dequeued(self.data.as_slice(), amount);
    }
}

} // verus!
