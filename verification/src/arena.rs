//! A reference shared memory for the chain, held in vectors.
//!
//! [`Arena`] is the executable form of [`Memory`]: it performs one access at
//! a time and does to itself exactly what `Memory::perform` says.

use crate::memory::{Hand, Memory};
use crate::node::{Life, Node};
use crate::protocol::{Action, Event, Reclaim};
use crate::soundness::lemma_first_open_skip;
use vstd::prelude::*;

verus! {

/// The shared memory of one queue.
pub struct Arena<T> {
    nodes: Vec<Node<T>>,
    lives: Vec<Life>,
    stamps: Vec<usize>,
    head: usize,
    tail: usize,
    count: usize,
    policy: Reclaim,
    retired: Vec<usize>,
    released: usize,
    guards: Vec<Option<usize>>,
    /// Every guard in front of this place is closed.
    front: usize,
    hazard: bool,
    misuse: bool,
    chain: Ghost<Seq<usize>>,
    history: Ghost<Seq<T>>,
    claimed: Ghost<nat>,
    handed: Ghost<Seq<int>>,
    fresh: Ghost<Set<usize>>,
    adds: Ghost<nat>,
    subs: Ghost<nat>,
}

impl<T> View for Arena<T> {
    type V = Memory<T>;

    closed spec fn view(&self) -> Memory<T> {
        Memory {
            nodes: self.nodes@,
            lives: self.lives@,
            stamps: self.stamps@,
            head: self.head,
            tail: self.tail,
            count: self.count,
            policy: self.policy,
            retired: self.retired@,
            released: self.released as nat,
            guards: self.guards@,
            hazard: self.hazard,
            misuse: self.misuse,
            chain: self.chain@,
            history: self.history@,
            claimed: self.claimed@,
            handed: self.handed@,
            fresh: self.fresh@,
            adds: self.adds@,
            subs: self.subs@,
        }
    }
}

impl<T> Arena<T> {
    /// The arena's invariant: its memory is well formed.
    pub closed spec fn wf(&self) -> bool {
        &&& self@.wf()
        &&& self.front <= self.guards@.len()
        &&& forall|g: int| 0 <= g < self.front ==> (#[trigger] self.guards@[g]).is_none()
    }

    /// A well-formed arena holds a well-formed memory.
    pub proof fn lemma_wf(&self)
        requires
            self.wf(),
        ensures
            self@.wf(),
    {
    }

    /// The memory of a new queue.
    pub fn new(policy: Reclaim) -> (a: Self)
        ensures
            a.wf(),
            a@ == Memory::<T>::init(policy),
    {
        let mut nodes: Vec<Node<T>> = Vec::new();
        nodes.push(Node::new_empty());
        let mut lives: Vec<Life> = Vec::new();
        lives.push(Life::Linked);
        let mut stamps: Vec<usize> = Vec::new();
        stamps.push(0);
        let a = Arena {
            nodes,
            lives,
            stamps,
            head: 0,
            tail: 0,
            count: 0,
            policy,
            retired: Vec::new(),
            released: 0,
            guards: Vec::new(),
            front: 0,
            hazard: false,
            misuse: false,
            chain: Ghost(Seq::empty().push(0usize)),
            history: Ghost(Seq::empty()),
            claimed: Ghost(0),
            handed: Ghost(Seq::empty()),
            fresh: Ghost(Set::empty()),
            adds: Ghost(0),
            subs: Ghost(0),
        };
        proof {
            Memory::<T>::lemma_init(policy);
        }
        a
    }

    /// The advisory length.
    pub fn size(&self) -> (n: usize)
        ensures
            n == self@.count,
    {
        self.count
    }

    /// Whether the advisory length reads zero.
    pub fn is_empty(&self) -> (b: bool)
        ensures
            b == (self@.count == 0),
    {
        self.count == 0
    }

    /// Whether a released cell was accessed.
    pub fn hazard(&self) -> (b: bool)
        ensures
            b == self@.hazard,
    {
        self.hazard
    }

    /// Whether an access was refused.
    pub fn misuse(&self) -> (b: bool)
        ensures
            b == self@.misuse,
    {
        self.misuse
    }

    /// Where the cell `id` stands in its life; `None` if there is no such
    /// cell.
    pub fn life(&self, id: usize) -> (l: Option<Life>)
        requires
            self.wf(),
        ensures
            l == (if self@.valid(id) {
                Some(self@.life(id))
            } else {
                None
            }),
    {
        proof {
            reveal(Memory::wf);
        }
        if id >= self.nodes.len() {
            None
        } else if self.released_cell(id) {
            Some(Life::Freed)
        } else {
            Some(self.lives[id])
        }
    }

    /// The cells from the sentinel to the end of the chain, in chain order.
    pub fn walk(&self) -> (cells: Vec<usize>)
        requires
            self.wf(),
        ensures
            cells@ == self@.chain.skip(self@.claimed as int),
            cells@.len() == self@.queue().len() + 1,
    {
        proof {
            reveal(Memory::wf);
        }
        let mut cells: Vec<usize> = Vec::new();
        let mut at = self.head;
        let ghost mut k: int = self.claimed@ as int;
        cells.push(at);
        loop
            invariant
                self.wf(),
                self@.wf(),
                self.claimed@ <= k < self.chain@.len(),
                at == self.chain@[k],
                cells@ == self.chain@.subrange(self.claimed@ as int, k + 1),
            ensures
                cells@ == self@.chain.skip(self@.claimed as int),
            decreases self.chain@.len() - k,
        {
            proof {
                reveal(Memory::wf);
                self@.lemma_place_of(k);
                self@.lemma_last(at);
            }
            match self.nodes[at].next {
                None => {
                    break ;
                },
                Some(n) => {
                    proof {
                        k = k + 1;
                    }
                    at = n;
                    cells.push(n);
                },
            }
        }
        cells
    }

    fn released_cell(&self, id: usize) -> (b: bool)
        requires
            self.wf(),
            self@.valid(id),
        ensures
            b == (self@.life(id) == Life::Freed),
    {
        proof {
            reveal(Memory::wf);
        }
        self.lives[id] == Life::Retired && self.stamps[id] < self.released
    }

    fn touch(&mut self, id: usize)
        requires
            old(self).wf(),
            old(self)@.valid(id),
        ensures
            final(self)@ == old(self)@.touch(id),
            final(self).wf(),
    {
        proof {
            reveal(Memory::wf);
        }
        if self.released_cell(id) {
            self.hazard = true;
        }
    }

    fn refuse(&mut self)
        requires
            old(self).wf(),
        ensures
            final(self)@ == old(self)@.refuse(),
            final(self).wf(),
    {
        proof {
            reveal(Memory::wf);
        }
        self.misuse = true;
        proof {
            old(self)@.lemma_perform_wf(Hand { item: None, guard: None }, Action::Unpin);
        }
    }

    fn pin(&mut self) -> (g: usize)
        requires
            old(self).wf(),
        ensures
            final(self)@ == old(self)@.pin().0,
            g == old(self)@.pin().1,
            final(self).wf(),
    {
        proof {
            reveal(Memory::wf);
        }
        let g = self.guards.len();
        self.guards.push(Some(self.retired.len()));
        let n = self.guards.len();
        proof {
            old(self)@.lemma_pin_wf();
        }
        g
    }

    fn unpin(&mut self, g: usize)
        requires
            old(self).wf(),
        ensures
            final(self)@ == old(self)@.unpin(g),
            final(self).wf(),
    {
        proof {
            reveal(Memory::wf);
        }
        if g >= self.guards.len() || self.guards[g].is_none() {
            self.refuse();
            return ;
        }
        self.guards[g] = None;
        let mut f = self.front;
        while f < self.guards.len() && self.guards[f].is_none()
            invariant
                f <= self.guards@.len(),
                forall|j: int| 0 <= j < f ==> (#[trigger] self.guards@[j]).is_none(),
            decreases self.guards@.len() - f,
        {
            f = f + 1;
        }
        self.front = f;
        proof {
            lemma_first_open_skip(self.guards@, 0, f as int);
        }
        match self.policy {
            Reclaim::Immediate => {},
            Reclaim::Deferred => {
                if f < self.guards.len() {
                    self.released = self.guards[f].unwrap();
                } else {
                    self.released = self.retired.len();
                }
            },
        }
        proof {
            old(self)@.lemma_unpin_wf(g);
        }
    }

    fn allocate(&mut self, item: T) -> (id: usize)
        requires
            old(self).wf(),
        ensures
            final(self)@ == old(self)@.allocate(item).0,
            id == old(self)@.allocate(item).1,
            final(self).wf(),
    {
        proof {
            reveal(Memory::wf);
        }
        let id = self.nodes.len();
        self.nodes.push(Node::new(item));
        self.lives.push(Life::Fresh);
        self.stamps.push(0);
        let n = self.nodes.len();
        proof {
            self.fresh@ = self.fresh@.insert(id);
            old(self)@.lemma_allocate_wf(item);
        }
        id
    }

    fn load_next(&mut self, at: usize) -> (r: Option<usize>)
        requires
            old(self).wf(),
        ensures
            final(self)@ == old(self)@.load_next(at).0,
            r == old(self)@.load_next(at).1,
            final(self).wf(),
    {
        proof {
            reveal(Memory::wf);
        }
        if at >= self.nodes.len() {
            self.refuse();
            return None;
        }
        self.touch(at);
        self.nodes[at].next
    }

    fn cas_next(&mut self, at: usize, new: usize) -> (ok: bool)
        requires
            old(self).wf(),
        ensures
            final(self)@ == old(self)@.cas_next(at, new).0,
            ok == old(self)@.cas_next(at, new).1,
            final(self).wf(),
    {
        proof {
            reveal(Memory::wf);
        }
        if at >= self.nodes.len() || new >= self.nodes.len() || self.lives[new] != Life::Fresh
            || self.lives[at] == Life::Fresh {
            self.refuse();
            return false;
        }
        self.touch(at);
        if self.nodes[at].next.is_some() {
            return false;
        }
        self.nodes[at].next = Some(new);
        self.lives[new] = Life::Linked;
        proof {
            self.chain@ = self.chain@.push(new);
            self.history@ = self.history@.push(old(self)@.nodes[new as int].item.unwrap());
            self.fresh@ = self.fresh@.remove(new);
            old(self)@.lemma_cas_next_wf(at, new);
        }
        true
    }

    fn cas_tail(&mut self, from: usize, to: usize) -> (ok: bool)
        requires
            old(self).wf(),
        ensures
            final(self)@ == old(self)@.cas_tail(from, to).0,
            ok == old(self)@.cas_tail(from, to).1,
            final(self).wf(),
    {
        proof {
            reveal(Memory::wf);
        }
        if self.tail != from {
            return false;
        }
        if to >= self.nodes.len() || self.lives[to] == Life::Fresh {
            self.refuse();
            return false;
        }
        self.tail = to;
        proof {
            old(self)@.lemma_cas_tail_wf(from, to);
        }
        true
    }

    fn cas_head(&mut self, from: usize, to: usize) -> (ok: bool)
        requires
            old(self).wf(),
        ensures
            final(self)@ == old(self)@.cas_head(from, to).0,
            ok == old(self)@.cas_head(from, to).1,
            final(self).wf(),
    {
        proof {
            reveal(Memory::wf);
        }
        if self.head != from {
            return false;
        }
        let next = self.nodes[from].next;
        if next.is_none() || next.unwrap() != to {
            self.refuse();
            return false;
        }
        self.head = to;
        self.lives[from] = Life::Detached;
        proof {
            self.claimed@ = self.claimed@ + 1;
            old(self)@.lemma_cas_head_wf(from, to);
        }
        true
    }

    fn take_item(&mut self, at: usize) -> (r: Option<T>)
        requires
            old(self).wf(),
        ensures
            final(self)@ == old(self)@.take_item(at).0,
            r == old(self)@.take_item(at).1,
            final(self).wf(),
    {
        proof {
            reveal(Memory::wf);
        }
        if at >= self.nodes.len() || !(at == self.head || self.lives[at] == Life::Detached
            || self.lives[at] == Life::Retired) {
            self.refuse();
            return None;
        }
        self.touch(at);
        let r = self.nodes[at].item.take();
        proof {
            if r.is_some() {
                self.handed@ = self.handed@.push(old(self)@.place(at) - 1);
            }
            old(self)@.lemma_take_item_wf(at);
        }
        r
    }

    fn retire(&mut self, at: usize)
        requires
            old(self).wf(),
        ensures
            final(self)@ == old(self)@.retire(at),
            final(self).wf(),
    {
        proof {
            reveal(Memory::wf);
        }
        if at >= self.nodes.len() || self.lives[at] != Life::Detached {
            self.refuse();
            return ;
        }
        self.lives[at] = Life::Retired;
        self.stamps[at] = self.retired.len();
        self.retired.push(at);
        let n = self.retired.len();
        match self.policy {
            Reclaim::Immediate => {
                self.released = n;
            },
            Reclaim::Deferred => {},
        }
        proof {
            old(self)@.lemma_retire_wf(at);
        }
    }

    fn add_len(&mut self)
        requires
            old(self).wf(),
        ensures
            final(self)@ == old(self)@.add_len(),
            final(self).wf(),
    {
        proof {
            reveal(Memory::wf);
        }
        if self.count == usize::MAX {
            self.count = 0;
        } else {
            self.count = self.count + 1;
        }
        proof {
            self.adds@ = self.adds@ + 1;
            old(self)@.lemma_add_len_wf();
        }
    }

    fn sub_len(&mut self)
        requires
            old(self).wf(),
        ensures
            final(self)@ == old(self)@.sub_len(),
            final(self).wf(),
    {
        proof {
            reveal(Memory::wf);
        }
        if self.count == 0 {
            self.count = usize::MAX;
        } else {
            self.count = self.count - 1;
        }
        proof {
            self.subs@ = self.subs@ + 1;
            old(self)@.lemma_sub_len_wf();
        }
    }

    /// Performs the access `action` for an operation that holds `hand`, and
    /// returns the answer.
    ///
    /// No access is an error: one that the memory refuses leaves it
    /// unchanged but for the record of misuse.
    pub fn perform(&mut self, hand: &mut Hand<T>, action: Action) -> (ev: Event)
        requires
            old(self).wf(),
        ensures
            final(self).wf(),
            (final(self)@, *final(hand), ev) == old(self)@.perform(*old(hand), action),
    {
        match action {
            Action::Pin => {
                if hand.guard.is_some() {
                    self.refuse();
                } else {
                    let g = self.pin();
                    hand.guard = Some(g);
                }
                Event::Unit
            },
            Action::Unpin => {
                match hand.guard {
                    Some(g) => {
                        self.unpin(g);
                        hand.guard = None;
                    },
                    None => {
                        self.refuse();
                    },
                }
                Event::Unit
            },
            Action::Alloc => {
                match hand.item.take() {
                    Some(v) => {
                        let id = self.allocate(v);
                        Event::Ptr(Some(id))
                    },
                    None => {
                        self.refuse();
                        Event::Ptr(None)
                    },
                }
            },
            Action::LoadLen => Event::Len(self.count),
            Action::LoadHead => Event::Ptr(Some(self.head)),
            Action::LoadTail => Event::Ptr(Some(self.tail)),
            Action::LoadNext { at } => {
                let r = self.load_next(at);
                Event::Ptr(r)
            },
            Action::CasNext { at, new } => {
                let ok = self.cas_next(at, new);
                Event::Cas(ok)
            },
            Action::CasTail { from, to } => {
                let ok = self.cas_tail(from, to);
                Event::Cas(ok)
            },
            Action::CasHead { from, to } => {
                let ok = self.cas_head(from, to);
                Event::Cas(ok)
            },
            Action::TakeItem { at } => {
                if hand.item.is_some() {
                    self.refuse();
                } else {
                    let v = self.take_item(at);
                    hand.item = v;
                }
                Event::Unit
            },
            Action::Retire { at } => {
                self.retire(at);
                Event::Unit
            },
            Action::AddLen => {
                self.add_len();
                Event::Unit
            },
            Action::SubLen => {
                self.sub_len();
                Event::Unit
            },
            Action::Finish => Event::Unit,
        }
    }
}

} // verus!
