//! The epoch-reclaimed queue whose push repairs a lagging tail by walking.
//!
//! A push that finds a successor behind the cell it wanted to link to walks
//! forward with a private reference until it reaches the last cell, links
//! there, and swings the shared tail only after its own link. Detached
//! sentinels are released once every guard that was open when they were
//! handed over is closed.
//!
//! [`CrsQueue`] runs one operation after the other. [`crate::crowd::Crowd`]
//! runs any number of them at once: there deferred reclamation shields
//! every pop, and every push that reads a tail which is still linked. The
//! tail may lag, though, and the head may go past it: a push that opens its
//! guard after the cell at the tail was retired starts from a cell that
//! nothing holds back, and a hazard is recorded if it was released by then.

use crate::arena::Arena;
use crate::protocol::{Reclaim, Repair};
use crate::solo::{lemma_pop_alone, run_pop, run_push};
use vstd::prelude::*;

verus! {

/// A first-in first-out queue with deferred reclamation and walking pushes.
pub struct CrsQueue<T> {
    arena: Arena<T>,
}

impl<T> View for CrsQueue<T> {
    type V = Seq<T>;

    /// The waiting items, oldest first.
    closed spec fn view(&self) -> Seq<T> {
        self.arena@.queue()
    }
}

impl<T> CrsQueue<T> {
    /// The queue's invariant: its memory is well formed and at rest. Every
    /// item is counted, the tail is the last cell, no released cell was
    /// ever accessed and no access refused.
    pub closed spec fn wf(&self) -> bool {
        &&& self.arena.wf()
        &&& self.arena@.policy == Reclaim::Deferred
        &&& self.arena@.settled()
        &&& self.arena@.tidy()
        &&& !self.arena@.hazard
        &&& !self.arena@.misuse
    }

    /// The cells from the sentinel to the end of the chain.
    pub closed spec fn cells(&self) -> Seq<usize> {
        self.arena@.chain.skip(self.arena@.claimed as int)
    }

    /// An empty queue: one sentinel, nothing counted.
    pub fn new() -> (q: Self)
        ensures
            q.wf(),
            q@ == Seq::<T>::empty(),
    {
        proof {
            crate::memory::Memory::<T>::lemma_init(Reclaim::Deferred);
        }
        CrsQueue { arena: Arena::new(Reclaim::Deferred) }
    }

    /// The number of waiting items.
    pub fn size(&self) -> (n: usize)
        requires
            self.wf(),
        ensures
            n == self@.len(),
    {
        proof {
            self.arena.lemma_wf();
            self.arena@.lemma_settled();
        }
        self.arena.size()
    }

    /// Whether no item waits.
    pub fn is_empty(&self) -> (b: bool)
        requires
            self.wf(),
        ensures
            b == (self@.len() == 0),
    {
        proof {
            self.arena.lemma_wf();
            self.arena@.lemma_settled();
        }
        self.arena.is_empty()
    }

    /// Inserts `data` behind every waiting item.
    pub fn push(&mut self, data: T)
        requires
            old(self).wf(),
        ensures
            final(self).wf(),
            final(self)@ == old(self)@.push(data),
    {
        proof {
            self.arena.lemma_wf();
            self.arena@.lemma_tidy();
        }
        run_push(&mut self.arena, data, Repair::LocalWalk);
    }

    /// Removes and returns the oldest waiting item, or returns `None` if
    /// nothing waits.
    pub fn pop(&mut self) -> (r: Option<T>)
        requires
            old(self).wf(),
        ensures
            final(self).wf(),
            r == (if old(self)@.len() == 0 {
                None
            } else {
                Some(old(self)@[0])
            }),
            final(self)@ == (if old(self)@.len() == 0 {
                old(self)@
            } else {
                old(self)@.skip(1)
            }),
    {
        proof {
            self.arena.lemma_wf();
            self.arena@.lemma_settled();
        }
        let r = run_pop(&mut self.arena);
        proof {
            self.arena.lemma_wf();
            lemma_pop_alone(old(self).arena@);
        }
        r
    }

    /// The cells from the sentinel to the end of the chain, in chain order:
    /// one more than there are waiting items.
    pub fn walk(&self) -> (cells: Vec<usize>)
        requires
            self.wf(),
        ensures
            cells@ == self.cells(),
            cells@.len() == self@.len() + 1,
    {
        self.arena.walk()
    }
}

impl<T> Default for CrsQueue<T> {
    fn default() -> (q: Self)
        ensures
            q.wf(),
            q@ == Seq::<T>::empty(),
    {
        CrsQueue::new()
    }
}

} // verus!
