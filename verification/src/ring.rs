//! A bounded first-in first-out queue of samples kept in a circular buffer.
//!
//! The queue never grows after construction, so the consumer side can run on a
//! real-time thread.

use vstd::prelude::*;

verus! {

/// Physical slot of the `i`-th queued element in a circular buffer of `cap`
/// slots whose oldest element sits at `head`.
pub open spec fn slot_of(head: int, cap: int, i: int) -> int {
    if head + i < cap {
        head + i
    } else {
        head + i - cap
    }
}

/// Fixed-capacity FIFO of samples.
///
/// Its view is the sequence of queued samples, oldest first.
pub struct SampleRing<T> {
    slots: Vec<T>,
    head: usize,
    count: usize,
}

impl<T> View for SampleRing<T> {
    type V = Seq<T>;

    closed spec fn view(&self) -> Seq<T> {
        Seq::new(
            self.count as nat,
            |i: int| self.slots@[slot_of(self.head as int, self.slots@.len() as int, i)],
        )
    }
}

impl<T> SampleRing<T> {
    /// The bookkeeping is consistent with the storage.
    pub closed spec fn wf(self) -> bool {
        &&& self.count <= self.slots@.len()
        &&& self.head <= self.slots@.len()
        &&& (self.slots@.len() > 0 ==> self.head < self.slots@.len())
    }

    /// Number of samples the queue can hold.
    pub closed spec fn capacity_spec(self) -> nat {
        self.slots@.len()
    }

    /// A well-formed queue never holds more than its capacity.
    pub proof fn lemma_bounded(self)
        requires
            self.wf(),
        ensures
            self@.len() <= self.capacity_spec(),
    {
    }
}

impl<T: Copy> SampleRing<T> {
    /// Creates an empty queue with room for `capacity` samples. `fill` only
    /// initialises the storage; it is never observable through the view.
    pub fn new(capacity: usize, fill: T) -> (r: Self)
        ensures
            r.wf(),
            r@ == Seq::<T>::empty(),
            r.capacity_spec() == capacity,
    {
        let mut slots: Vec<T> = Vec::new();
        let mut i: usize = 0;
        while i < capacity
            invariant
                i <= capacity,
                slots@.len() == i,
            decreases capacity - i,
        {
            slots.push(fill);
            i += 1;
        }
        let r = SampleRing { slots, head: 0, count: 0 };
        assert(r@ =~= Seq::<T>::empty());
        r
    }

    /// Number of queued samples.
    pub fn len(&self) -> (n: usize)
        ensures
            n == self@.len(),
    {
        self.count
    }

    /// Number of samples the queue can hold.
    pub fn capacity(&self) -> (n: usize)
        requires
            self.wf(),
        ensures
            n == self.capacity_spec(),
            self@.len() <= n,
    {
        self.slots.len()
    }

    /// Number of samples that can still be queued.
    pub fn free(&self) -> (n: usize)
        requires
            self.wf(),
        ensures
            n == self.capacity_spec() - self@.len(),
    {
        self.slots.len() - self.count
    }

    /// The `i`-th queued sample, counting from the oldest.
    pub fn get(&self, i: usize) -> (v: T)
        requires
            self.wf(),
            i < self@.len(),
        ensures
            v == self@[i as int],
    {
        let room: usize = self.slots.len() - self.head;
        let at: usize = if i < room {
            self.head + i
        } else {
            i - room
        };
        self.slots[at]
    }

    /// Appends `data[start .. start + n]` to the queue.
    pub fn push_range(&mut self, data: &[T], start: usize, n: usize)
        requires
            old(self).wf(),
            start + n <= data@.len(),
            old(self)@.len() + n <= old(self).capacity_spec(),
        ensures
            final(self).wf(),
            final(self)@ == old(self)@ + data@.subrange(start as int, start + n),
            final(self).capacity_spec() == old(self).capacity_spec(),
    {
        let cap: usize = self.slots.len();
        let total: usize = data.len();
        let mut k: usize = 0;
        while k < n
            invariant
                k <= n,
                total == data@.len(),
                start + n <= total,
                cap == self.slots@.len(),
                cap == old(self).slots@.len(),
                self.head == old(self).head,
                self.head <= cap,
                cap > 0 ==> self.head < cap,
                self.count == old(self).count + k,
                old(self).count + n <= cap,
                self@ == old(self)@ + data@.subrange(start as int, start + k),
            decreases n - k,
        {
            let room: usize = cap - self.head;
            let at: usize = if self.count < room {
                self.head + self.count
            } else {
                self.count - room
            };
            let ghost before = self@;
            let v: T = data[start + k];
            self.slots.set(at, v);
            self.count = self.count + 1;
            k += 1;
            proof {
                let head = self.head as int;
                let c = cap as int;
                assert(at as int == slot_of(head, c, self.count - 1));
                assert forall|i: int| 0 <= i < self.count - 1 implies slot_of(head, c, i)
                    != at as int by {}
                assert(self@ =~= before.push(v));
                assert(data@.subrange(start as int, start + k) =~= data@.subrange(
                    start as int,
                    start + k - 1,
                ).push(v));
            }
        }
    }

    /// Drops the `n` oldest samples.
    pub fn discard(&mut self, n: usize)
        requires
            old(self).wf(),
            n <= old(self)@.len(),
        ensures
            final(self).wf(),
            final(self)@ == old(self)@.skip(n as int),
            final(self).capacity_spec() == old(self).capacity_spec(),
    {
        if n > 0 {
            let cap: usize = self.slots.len();
            let room: usize = cap - self.head;
            let next: usize = if n < room {
                self.head + n
            } else {
                n - room
            };
            self.head = next;
            self.count = self.count - n;
            proof {
                let h0 = old(self).head as int;
                let c = cap as int;
                assert forall|i: int| 0 <= i < self.count implies slot_of(next as int, c, i)
                    == slot_of(h0, c, i + n) by {}
                assert(self@ =~= old(self)@.skip(n as int));
            }
        } else {
            assert(self@ =~= old(self)@.skip(0));
        }
    }
}

} // verus!
