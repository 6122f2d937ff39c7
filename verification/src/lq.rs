//! The lock-free queue without a reclamation scheme.
//!
//! A detached sentinel is released the moment the pop that detached it
//! hands it over, whoever else may still hold a reference to it.
//!
//! [`LinkedQueue`] runs one operation after the other, which is safe. With
//! several operations at once ([`crate::crowd::Crowd`]) an operation that
//! read a reference before a cell was released and follows it afterwards
//! accesses released memory, which is recorded as a hazard. That cannot
//! happen with a single consumer beside a single producer
//! ([`crate::lone`]); it can with more of either, so this is not a general
//! multi-producer multi-consumer queue.

use crate::arena::Arena;
use crate::protocol::{Reclaim, Repair};
use crate::solo::{lemma_pop_alone, run_pop, run_push};
use vstd::prelude::*;

verus! {

/// A first-in first-out queue that releases detached sentinels at once.
///
/// WARNING: the algorithm is unsafe for more than one consumer or more than
/// one producer at a time.
pub struct LinkedQueue<T> {
    arena: Arena<T>,
}

impl<T> View for LinkedQueue<T> {
    type V = Seq<T>;

    /// The waiting items, oldest first.
    closed spec fn view(&self) -> Seq<T> {
        self.arena@.queue()
    }
}

impl<T> LinkedQueue<T> {
    /// The queue's invariant: its memory is well formed and at rest. Every
    /// item is counted, the tail is the last cell, no released cell was
    /// ever accessed and no access refused.
    pub closed spec fn wf(&self) -> bool {
        &&& self.arena.wf()
        &&& self.arena@.policy == Reclaim::Immediate
        &&& self.arena@.settled()
        &&& self.arena@.tidy()
        &&& !self.arena@.hazard
        &&& !self.arena@.misuse
    }

    /// The cells from the sentinel to the end of the chain.
    pub closed spec fn cells(&self) -> Seq<usize> {
        self.arena@.chain.skip(self.arena@.claimed as int)
    }

    /// An empty queue: one sentinel, nothing counted.
    pub fn new() -> (q: Self)
        ensures
            q.wf(),
            q@ == Seq::<T>::empty(),
    {
        proof {
            crate::memory::Memory::<T>::lemma_init(Reclaim::Immediate);
        }
        LinkedQueue { arena: Arena::new(Reclaim::Immediate) }
    }

    /// The number of waiting items.
    pub fn size(&self) -> (n: usize)
        requires
            self.wf(),
        ensures
            n == self@.len(),
    {
        proof {
            self.arena.lemma_wf();
            self.arena@.lemma_settled();
        }
        self.arena.size()
    }

    /// Whether no item waits.
    pub fn is_empty(&self) -> (b: bool)
        requires
            self.wf(),
        ensures
            b == (self@.len() == 0),
    {
        proof {
            self.arena.lemma_wf();
            self.arena@.lemma_settled();
        }
        self.arena.is_empty()
    }

    /// Inserts `data` behind every waiting item.
    pub fn push(&mut self, data: T)
        requires
            old(self).wf(),
        ensures
            final(self).wf(),
            final(self)@ == old(self)@.push(data),
    {
        proof {
            self.arena.lemma_wf();
            self.arena@.lemma_tidy();
        }
        run_push(&mut self.arena, data, Repair::LocalWalk);
    }

    /// Removes and returns the oldest waiting item, or returns `None` if
    /// nothing waits.
    pub fn pop(&mut self) -> (r: Option<T>)
        requires
            old(self).wf(),
        ensures
            final(self).wf(),
            r == (if old(self)@.len() == 0 {
                None
            } else {
                Some(old(self)@[0])
            }),
            final(self)@ == (if old(self)@.len() == 0 {
                old(self)@
            } else {
                old(self)@.skip(1)
            }),
    {
        proof {
            self.arena.lemma_wf();
            self.arena@.lemma_settled();
        }
        let r = run_pop(&mut self.arena);
        proof {
            self.arena.lemma_wf();
            lemma_pop_alone(old(self).arena@);
        }
        r
    }

    /// The cells from the sentinel to the end of the chain, in chain order:
    /// one more than there are waiting items.
    pub fn walk(&self) -> (cells: Vec<usize>)
        requires
            self.wf(),
        ensures
            cells@ == self.cells(),
            cells@.len() == self@.len() + 1,
    {
        self.arena.walk()
    }
}

impl<T> Default for LinkedQueue<T> {
    fn default() -> (q: Self)
        ensures
            q.wf(),
            q@ == Seq::<T>::empty(),
    {
        LinkedQueue::new()
    }
}

} // verus!
