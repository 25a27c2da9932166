//! Bounded first-in first-out queues.
//!
//! Both the per-task free queues (slot indices waiting to be reused) and the
//! per-level ready queues (task instances waiting to be dispatched) are
//! instances of [`BoundedQueue`].

use std::collections::VecDeque;
use vstd::prelude::*;

verus! {

/// A first-in first-out queue that never holds more than a fixed number of
/// items. Neither operation blocks: a full queue hands the item back, an
/// empty queue yields nothing.
pub struct BoundedQueue<T> {
    items: VecDeque<T>,
    limit: usize,
}

impl<T> View for BoundedQueue<T> {
    type V = Seq<T>;

    /// The queued items, oldest first.
    closed spec fn view(&self) -> Seq<T> {
        self.items@
    }
}

impl<T> BoundedQueue<T> {
    /// The largest number of items the queue may hold.
    pub closed spec fn spec_capacity(&self) -> nat {
        self.limit as nat
    }

    /// The queue never exceeds its capacity.
    pub open spec fn wf(&self) -> bool {
        self@.len() <= self.spec_capacity()
    }

    /// An empty queue for at most `capacity` items.
    pub fn new(capacity: usize) -> (q: Self)
        ensures
            q.wf(),
            q@ == Seq::<T>::empty(),
            q.spec_capacity() == capacity,
    {
        BoundedQueue { items: VecDeque::new(), limit: capacity }
    }

    /// The largest number of items the queue may hold.
    pub fn capacity(&self) -> (n: usize)
        ensures
            n == self.spec_capacity(),
    {
        self.limit
    }

    /// The number of queued items.
    pub fn len(&self) -> (n: usize)
        ensures
            n == self@.len(),
    {
        self.items.len()
    }

    /// The item at position `i`, counted from the oldest.
    pub fn get(&self, i: usize) -> (item: &T)
        requires
            i < self@.len(),
        ensures
            *item == self@[i as int],
    {
        &self.items[i]
    }

    /// Whether nothing is queued.
    pub fn is_empty(&self) -> (b: bool)
        ensures
            b == (self@.len() == 0),
    {
        self.items.len() == 0
    }

    /// Whether the queue has reached its capacity.
    pub fn is_full(&self) -> (b: bool)
        requires
            self.wf(),
        ensures
            b == (self@.len() == self.spec_capacity()),
    {
        self.items.len() >= self.limit
    }

    /// Appends `item` behind everything already queued. A full queue is left
    /// as it was and the item comes back as the error.
    pub fn enqueue(&mut self, item: T) -> (r: Result<(), T>)
        requires
            old(self).wf(),
        ensures
            final(self).wf(),
            final(self).spec_capacity() == old(self).spec_capacity(),
            old(self)@.len() < old(self).spec_capacity() ==> r is Ok
                && final(self)@ == old(self)@.push(item),
            old(self)@.len() >= old(self).spec_capacity() ==> r == Err::<(), T>(item)
                && final(self)@ == old(self)@,
    {
        if self.items.len() >= self.limit {
            Err(item)
        } else {
            self.items.push_back(item);
            Ok(())
        }
    }

    /// Removes and returns the oldest item, or `None` when the queue is empty.
    pub fn dequeue(&mut self) -> (r: Option<T>)
        requires
            old(self).wf(),
        ensures
            final(self).wf(),
            final(self).spec_capacity() == old(self).spec_capacity(),
            old(self)@.len() == 0 ==> r is None && final(self)@ == old(self)@,
            old(self)@.len() > 0 ==> r == Some(old(self)@[0])
                && final(self)@ == old(self)@.skip(1),
    {
        self.items.pop_front()
    }
}

} // verus!
