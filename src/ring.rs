//! Index arithmetic of a ring buffer: where the live items lie, where the
//! next free slots lie, and how the cursors move.

use vstd::prelude::*;

verus! {

/// Physical position of the slot that lies `k` places after `start` in a ring
/// of `cap` slots, for `start < cap` and `k <= cap`.
pub open spec fn ring_index(cap: nat, start: nat, k: nat) -> nat {
    if start + k < cap {
        start + k
    } else {
        (start + k - cap) as nat
    }
}

/// Length of the run of live items that begins at `head`, in a ring of `cap`
/// slots that holds `len` items: up to the last item, or up to the end of
/// the storage when the items wrap past it.
pub open spec fn item_run_len(cap: nat, head: nat, len: nat) -> nat {
    if head + len < cap {
        len
    } else {
        (cap - head) as nat
    }
}

/// Length of the run of free slots that begins after the last live item, in
/// a ring of `cap` slots that holds `len` items from `head` on: up to the end
/// of the storage, or up to `head` when the items wrap past the end.
pub open spec fn slot_run_len(cap: nat, head: nat, len: nat) -> nat {
    if head + len < cap {
        (cap - head - len) as nat
    } else {
        (cap - len) as nat
    }
}

/// The `len` values of `data` that begin at position `start` and run on
/// around the end of `data`.
pub open spec fn window<T>(data: Seq<T>, start: nat, len: nat) -> Seq<T> {
    Seq::new(len, |k: int| data[ring_index(data.len(), start, k as nat) as int])
}

/// The read cursor of a ring and the number of live items behind it.
pub struct Cursor {
    /// Position of the oldest live item.
    pub read: usize,
    /// Number of live items.
    pub amount: usize,
}

impl Cursor {
    /// The cursor fits a ring of `cap` slots.
    pub open spec fn valid(self, cap: nat) -> bool {
        &&& self.amount <= cap
        &&& (self.read < cap || (self.read == 0 && cap == 0))
    }

    /// Whether the live items stop short of the end of the storage.
    pub open spec fn contiguous(self, cap: nat) -> bool {
        self.read + self.amount < cap
    }

    /// Position of the next free slot.
    pub open spec fn write_pos(self, cap: nat) -> nat {
        ring_index(cap, self.read as nat, self.amount as nat)
    }

    /// End of the run of live items that begins at `read`.
    pub open spec fn readable_end(self, cap: nat) -> nat {
        if self.contiguous(cap) {
            (self.read + self.amount) as nat
        } else {
            cap
        }
    }

    /// End of the run of free slots that begins at `write_pos`.
    pub open spec fn writeable_end(self, cap: nat) -> nat {
        if self.contiguous(cap) {
            cap
        } else {
            self.read as nat
        }
    }

    /// The live items in `data`, oldest first.
    pub open spec fn items_in<T>(self, data: Seq<T>) -> Seq<T> {
        window(data, self.read as nat, self.amount as nat)
    }

    /// What `data` holds in the run of free slots that begins at the write
    /// position; empty when the ring is full.
    pub open spec fn slot_run_in<T>(self, data: Seq<T>) -> Seq<T> {
        if self.amount == data.len() {
            Seq::empty()
        } else {
            data.subrange(
                self.write_pos(data.len()) as int,
                self.writeable_end(data.len()) as int,
            )
        }
    }

    /// An empty ring.
    pub fn new() -> (r: Cursor)
        ensures
            r.read == 0,
            r.amount == 0,
    {
        Cursor { read: 0, amount: 0 }
    }

    /// Whether the live items stop short of the end of the storage.
    pub fn is_contiguous(&self, cap: usize) -> (r: bool)
        requires
            self.valid(cap as nat),
        ensures
            r == self.contiguous(cap as nat),
    {
        self.amount < cap - self.read
    }

    /// Position of the next free slot.
    pub fn write_to(&self, cap: usize) -> (r: usize)
        requires
            self.valid(cap as nat),
        ensures
            r == self.write_pos(cap as nat),
            self.amount < cap ==> r < cap,
    {
        if self.amount < cap - self.read {
            self.read + self.amount
        } else {
            self.amount - (cap - self.read)
        }
    }

    /// End of the run of live items that begins at `read`.
    pub fn read_end(&self, cap: usize) -> (r: usize)
        requires
            self.valid(cap as nat),
        ensures
            r == self.readable_end(cap as nat),
            self.read <= r <= cap,
    {
        if self.is_contiguous(cap) {
            self.read + self.amount
        } else {
            cap
        }
    }

    /// End of the run of free slots that begins at `write_to`.
    pub fn write_end(&self, cap: usize) -> (r: usize)
        requires
            self.valid(cap as nat),
            self.amount < cap,
        ensures
            r == self.writeable_end(cap as nat),
            self.write_pos(cap as nat) < r <= cap,
    {
        if self.is_contiguous(cap) {
            cap
        } else {
            self.read
        }
    }

    /// Count `n` more live items after the present ones.
    pub fn grow(&mut self, cap: usize, n: usize)
        requires
            old(self).valid(cap as nat),
            old(self).amount + n <= cap,
        ensures
            final(self).valid(cap as nat),
            final(self).read == old(self).read,
            final(self).amount == old(self).amount + n,
    {
        self.amount = self.amount + n;
    }

    /// Drop the `n` oldest live items.
    pub fn advance(&mut self, cap: usize, n: usize)
        requires
            old(self).valid(cap as nat),
            n <= old(self).amount,
        ensures
            final(self).valid(cap as nat),
            final(self).read == ring_index(cap as nat, old(self).read as nat, n as nat),
            final(self).amount == old(self).amount - n,
    {
        if n < cap - self.read {
            self.read = self.read + n;
        } else {
            self.read = n - (cap - self.read);
        }
        self.amount = self.amount - n;
    }

    /// Write `item` into the next free slot of `data` and count it live, or
    /// hand it back when the ring is full.
    pub fn enqueue_into<T: Copy>(&mut self, data: &mut [T], item: T) -> (r: Option<T>)
        requires
            old(self).valid(old(data)@.len()),
        ensures
            final(self).valid(old(data)@.len()),
            final(self).read == old(self).read,
            final(data)@.len() == old(data)@.len(),
            old(self).amount == old(data)@.len() ==> r == Some(item)
                && final(self).items_in(final(data)@) == old(self).items_in(old(data)@),
            old(self).amount < old(data)@.len() ==> r is None
                && final(self).items_in(final(data)@) == old(self).items_in(old(data)@).push(item),
    {
        let cap = data.len();
        if self.amount == cap {
            Some(item)
        } else {
            proof {
                lemma_window_push(data@, *self, item);
            }
            let w = self.write_to(cap);
            data[w] = item;
            self.grow(cap, 1);
            None
        }
    }

    /// Take the oldest live item out of the ring, or `None` when it is empty.
    pub fn dequeue_from<T: Copy>(&mut self, data: &[T]) -> (r: Option<T>)
        requires
            old(self).valid(data@.len()),
        ensures
            final(self).valid(data@.len()),
            final(self).read == if old(self).amount == 0 {
                old(self).read as nat
            } else {
                ring_index(data@.len(), old(self).read as nat, 1)
            },
            old(self).amount == 0 ==> r is None
                && final(self).items_in(data@) == old(self).items_in(data@),
            old(self).amount > 0 ==> r == Some(old(self).items_in(data@)[0])
                && final(self).items_in(data@) == old(self).items_in(data@).drop_first(),
    {
        let cap = data.len();
        if self.amount == 0 {
            None
        } else {
            proof {
                lemma_window_skip(data@, *self, 1);
            }
            let item = data[self.read];
            self.advance(cap, 1);
            Some(item)
        }
    }

    /// The run of free slots of `data` that begins at the write position, or
    /// `None` when the ring is full. Whatever the caller leaves in the run
    /// lands in `data` without touching the live items.
    pub fn free_run<'a, T>(&self, data: &'a mut [T]) -> (r: Option<&'a mut [T]>)
        requires
            self.valid(old(data)@.len()),
        ensures
            r is None <==> self.amount == old(data)@.len(),
            r is None ==> final(data)@ == old(data)@,
            r matches Some(s) ==> s@ == self.slot_run_in(old(data)@),
            r matches Some(s) ==> (final(s)@.len() == s@.len() ==> {
                &&& final(data)@.len() == old(data)@.len()
                &&& self.items_in(final(data)@) == self.items_in(old(data)@)
                &&& self.slot_run_in(final(data)@) == final(s)@
            }),
    {
        let cap = data.len();
        if self.amount == cap {
            None
        } else {
            let start = self.write_to(cap);
            let end = self.write_end(cap);
            let (_, rest) = data.split_at_mut(start);
            let (run, _) = rest.split_at_mut(end - start);
            Some(run)
        }
    }

    /// The run of live items of `data` that begins at the read cursor, or
    /// `None` when the ring is empty.
    pub fn live_run<'a, T>(&self, data: &'a [T]) -> (r: Option<&'a [T]>)
        requires
            self.valid(data@.len()),
        ensures
            r is None <==> self.amount == 0,
            r matches Some(s) ==> s@ == self.items_in(data@).take(
                item_run_len(data@.len(), self.read as nat, self.amount as nat) as int,
            ),
    {
        let cap = data.len();
        if self.amount == 0 {
            None
        } else {
            proof {
                lemma_readable_run(data@, *self);
            }
            let end = self.read_end(cap);
            Some(vstd::slice::slice_subrange(data, self.read, end))
        }
    }

    /// Count the first `n` values of the run of free slots of `data` live.
    pub fn commit_enqueued<T>(&mut self, data: &[T], n: usize)
        requires
            old(self).valid(data@.len()),
            n <= old(self).slot_run_in(data@).len(),
        ensures
            final(self).valid(data@.len()),
            final(self).read == old(self).read,
            final(self).items_in(data@) == old(self).items_in(data@) + old(self).slot_run_in(
                data@,
            ).take(n as int),
    {
        let cap = data.len();
        proof {
            if n > 0 {
                lemma_fill_run(data@, *self, self.slot_run_in(data@), n as nat);
                assert(data@ =~= data@.subrange(0, self.write_pos(cap as nat) as int)
                    + self.slot_run_in(data@) + data@.subrange(
                    self.writeable_end(cap as nat) as int,
                    cap as int,
                ));
            } else {
                assert(self.items_in(data@) + self.slot_run_in(data@).take(0) =~= self.items_in(
                    data@,
                ));
            }
        }
        self.grow(cap, n);
    }

    /// Drop the first `n` live items of `data`.
    pub fn commit_dequeued<T>(&mut self, data: &[T], n: usize)
        requires
            old(self).valid(data@.len()),
            n <= old(self).amount,
        ensures
            final(self).valid(data@.len()),
            final(self).read == ring_index(data@.len(), old(self).read as nat, n as nat),
            final(self).items_in(data@) == old(self).items_in(data@).skip(n as int),
    {
        proof {
            lemma_window_skip(data@, *self, n as nat);
        }
        self.advance(data.len(), n);
    }
}

/// Writing the next free slot appends to the live items.
proof fn lemma_window_push<T>(data: Seq<T>, c: Cursor, x: T)
    requires
        c.valid(data.len()),
        c.amount < data.len(),
    ensures
        window(data.update(c.write_pos(data.len()) as int, x), c.read as nat, (c.amount + 1) as nat)
            == window(data, c.read as nat, c.amount as nat).push(x),
{
    assert(window(data.update(c.write_pos(data.len()) as int, x), c.read as nat, (c.amount + 1) as nat)
        =~= window(data, c.read as nat, c.amount as nat).push(x));
}

/// Moving the read cursor past `n` items drops them from the front.
proof fn lemma_window_skip<T>(data: Seq<T>, c: Cursor, n: nat)
    requires
        c.valid(data.len()),
        n <= c.amount,
    ensures
        window(data, ring_index(data.len(), c.read as nat, n), (c.amount - n) as nat)
            == window(data, c.read as nat, c.amount as nat).skip(n as int),
{
    assert(window(data, ring_index(data.len(), c.read as nat, n), (c.amount - n) as nat)
        =~= window(data, c.read as nat, c.amount as nat).skip(n as int));
}

/// The run of live items that begins at the read cursor is a prefix of them.
proof fn lemma_readable_run<T>(data: Seq<T>, c: Cursor)
    requires
        c.valid(data.len()),
    ensures
        data.subrange(c.read as int, c.readable_end(data.len()) as int)
            == window(data, c.read as nat, c.amount as nat).take(
            c.readable_end(data.len()) - c.read,
        ),
{
    assert(data.subrange(c.read as int, c.readable_end(data.len()) as int)
        =~= window(data, c.read as nat, c.amount as nat).take(
        c.readable_end(data.len()) - c.read,
    ));
}

/// Filling the run of free slots with `s` keeps the live items, and counting
/// `n` of the new values live appends the first `n` of `s`.
proof fn lemma_fill_run<T>(data: Seq<T>, c: Cursor, s: Seq<T>, n: nat)
    requires
        c.valid(data.len()),
        c.amount < data.len(),
        s.len() == c.writeable_end(data.len()) - c.write_pos(data.len()),
        n <= s.len(),
    ensures
        ({
            let filled = data.subrange(0, c.write_pos(data.len()) as int) + s + data.subrange(
                c.writeable_end(data.len()) as int,
                data.len() as int,
            );
            &&& filled.len() == data.len()
            &&& window(filled, c.read as nat, c.amount as nat) == window(
                data,
                c.read as nat,
                c.amount as nat,
            )
            &&& window(filled, c.read as nat, (c.amount + n) as nat) == window(
                data,
                c.read as nat,
                c.amount as nat,
            ) + s.take(n as int)
        }),
{
    let filled = data.subrange(0, c.write_pos(data.len()) as int) + s + data.subrange(
        c.writeable_end(data.len()) as int,
        data.len() as int,
    );
    assert(window(filled, c.read as nat, c.amount as nat) =~= window(
        data,
        c.read as nat,
        c.amount as nat,
    ));
    assert(window(filled, c.read as nat, (c.amount + n) as nat) =~= window(
        data,
        c.read as nat,
        c.amount as nat,
    ) + s.take(n as int));
}

/// How long the two runs are.
pub proof fn lemma_run_bounds<T>(c: Cursor, data: Seq<T>)
    requires
        c.valid(data.len()),
    ensures
        c.items_in(data).len() == c.amount,
        c.slot_run_in(data).len() == slot_run_len(data.len(), c.read as nat, c.amount as nat),
{
}

} // verus!
