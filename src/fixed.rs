//! A queue whose ring lives in one heap allocation.

use vstd::prelude::*;

use crate::queue::Queue;
use crate::ring::{lemma_run_bounds, Cursor};

verus! {

/// A queue holding up to a number of items chosen at creation. Allocates its
/// storage once, when it is created, and never again.
pub struct Fixed<T> {
    /// The ring; its length is the capacity.
    data: Vec<T>,
    /// Where the live items lie in `data`.
    cur: Cursor,
}

impl<T: Copy + Default> Fixed<T> {
    /// An empty queue for `capacity` items.
    pub fn new(capacity: usize) -> (r: Self)
        ensures
            r.wf(),
            r.cap() == capacity,
            r.items() == Seq::<T>::empty(),
            r.head() == 0,
    {
        let mut data: Vec<T> = Vec::with_capacity(capacity);
        Self::fill(&mut data, capacity);
        Fixed { data, cur: Cursor::new() }
    }

    /// An empty queue for `capacity` items, or `None` when the storage cannot
    /// be allocated.
    pub fn try_new(capacity: usize) -> (r: Option<Self>)
        ensures
            r matches Some(q) ==> q.wf() && q.cap() == capacity && q.items() == Seq::<T>::empty()
                && q.head() == 0,
    {
        let mut data: Vec<T> = Vec::new();
        match data.try_reserve(capacity) {
            Err(_) => None,
            Ok(()) => {
                Self::fill(&mut data, capacity);
                Some(Fixed { data, cur: Cursor::new() })
            },
        }
    }

    /// Append default values to `data` until it holds `n` of them.
    fn fill(data: &mut Vec<T>, n: usize)
        requires
            old(data)@.len() == 0,
        ensures
            final(data)@.len() == n,
    {
        let mut i: usize = 0;
        while i < n
            invariant
                i <= n,
                data@.len() == i,
            decreases n - i,
        {
            data.push(T::default());
            i = i + 1;
        }
    }
}

impl<T: Copy> Fixed<T> {
    /// The number of items the queue can hold.
    pub fn capacity(&self) -> (r: usize)
        ensures
            r == self.cap(),
    {
        self.data.len()
    }
}

impl<T: Copy> Queue for Fixed<T> {
    type Item = T;

    closed spec fn wf(&self) -> bool {
        self.cur.valid(self.data@.len())
    }

    closed spec fn items(&self) -> Seq<T> {
        self.cur.items_in(self.data@)
    }

    closed spec fn cap(&self) -> nat {
        self.data@.len()
    }

    closed spec fn head(&self) -> nat {
        self.cur.read as nat
    }

    closed spec fn slot_run(&self) -> Seq<T> {
        self.cur.slot_run_in(self.data@)
    }

    proof fn lemma_shape(&self) {
        lemma_run_bounds(self.cur, self.data@);
        assert(self.slot_run() == self.cur.slot_run_in(self.data@));
    }

    fn len(&self) -> (r: usize) {
        self.cur.amount
    }

    fn enqueue(&mut self, item: T) -> (r: Option<T>) {
        self.cur.enqueue_into(self.data.as_mut_slice(), item)
    }

    fn expose_slots(&mut self) -> (r: Option<&mut [T]>) {
        self.cur.free_run(self.data.as_mut_slice())
    }

    fn consider_enqueued(&mut self, amount: usize) {
        self.cur.commit_enqueued(self.data.as_slice(), amount);
    }

    fn dequeue(&mut self) -> (r: Option<T>) {
        self.cur.dequeue_from(self.data.as_slice())
    }

    fn expose_items(&mut self) -> (r: Option<&[T]>) {
        self.cur.live_run(self.data.as_slice())
    }

    fn consider_dequeued(&mut self, amount: usize) {
        self.cur.commit_dequeued(self.data.as_slice(), amount);
    }
}

} // verus!
