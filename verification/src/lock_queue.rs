//! The baseline queue: a plain double-ended list that a single owner drives.
//!
//! Every operation needs exclusive access, so a caller that shares the queue
//! between threads wraps it in one mutual-exclusion lock and holds the lock
//! for the length of each call.

use std::collections::VecDeque;
use vstd::prelude::*;

verus! {

/// A first-in first-out queue held in one list.
pub struct LockQueue<T> {
    inner: VecDeque<T>,
}

impl<T> View for LockQueue<T> {
    type V = Seq<T>;

    /// The queued items, oldest first.
    closed spec fn view(&self) -> Seq<T> {
        self.inner@
    }
}

impl<T> LockQueue<T> {
    /// An empty queue.
    pub fn new() -> (q: Self)
        ensures
            q@ == Seq::<T>::empty(),
    {
        LockQueue { inner: VecDeque::new() }
    }

    /// The number of queued items.
    pub fn size(&self) -> (n: usize)
        ensures
            n == self@.len(),
    {
        self.inner.len()
    }

    /// Whether no item is queued.
    pub fn is_empty(&self) -> (b: bool)
        ensures
            b == (self@.len() == 0),
    {
        self.inner.len() == 0
    }

    /// Appends `item` behind every queued item.
    pub fn push(&mut self, item: T)
        ensures
            final(self)@ == old(self)@.push(item),
    {
        self.inner.push_back(item);
    }

    /// Removes and returns the oldest item, or `None` when the queue is empty.
    pub fn pop(&mut self) -> (r: Option<T>)
        ensures
            r == (if old(self)@.len() == 0 { None } else { Some(old(self)@[0]) }),
            final(self)@ == (if old(self)@.len() == 0 { old(self)@ } else { old(self)@.skip(1) }),
    {
        let r = self.inner.pop_front();
        proof {
            if old(self)@.len() > 0 {
                assert(old(self)@.skip(1) =~= old(self)@.subrange(1, old(self)@.len() as int));
            }
        }
        r
    }
}

impl<T> Default for LockQueue<T> {
    fn default() -> (q: Self)
        ensures
            q@ == Seq::<T>::empty(),
    {
        LockQueue::new()
    }
}

} // verus!
