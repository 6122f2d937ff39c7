//! Every access keeps the shared memory well formed.

use crate::memory::{
    first_open, lemma_wrap_bump, lemma_wrap_drop, lemma_wrap_small, Hand, Memory,
};
use crate::node::Life;
use crate::protocol::{Action, Reclaim};
use vstd::prelude::*;

verus! {

/// What `first_open` finds: the guards between `from` and the result are
/// closed, and the result, if it is a guard at all, is open.
pub proof fn lemma_first_open(guards: Seq<Option<usize>>, from: int)
    requires
        0 <= from <= guards.len(),
    ensures
        from <= first_open(guards, from) <= guards.len(),
        first_open(guards, from) < guards.len() ==> guards[first_open(guards, from)].is_some(),
        forall|j: int| from <= j < first_open(guards, from) ==> (#[trigger] guards[j]).is_none(),
    decreases guards.len() - from,
{
    if from < guards.len() && guards[from].is_none() {
        lemma_first_open(guards, from + 1);
    }
}

/// Closed guards in front do not change what `first_open` finds.
pub proof fn lemma_first_open_skip(guards: Seq<Option<usize>>, from: int, to: int)
    requires
        0 <= from <= to <= guards.len(),
        forall|j: int| from <= j < to ==> (#[trigger] guards[j]).is_none(),
    ensures
        first_open(guards, from) == first_open(guards, to),
    decreases to - from,
{
    if from < to {
        lemma_first_open_skip(guards, from + 1, to);
    }
}

/// A closed guard behind all others does not change which guard is the
/// first open one.
pub proof fn lemma_first_open_push(guards: Seq<Option<usize>>, from: int)
    requires
        0 <= from <= guards.len(),
    ensures
        first_open(guards, from) < guards.len() ==> first_open(guards.push(None), from)
            == first_open(guards, from),
        first_open(guards, from) >= guards.len() ==> first_open(guards.push(None), from)
            == guards.len() + 1,
    decreases guards.len() - from,
{
    let more = guards.push(None);
    if from < guards.len() {
        if guards[from].is_none() {
            lemma_first_open_push(guards, from + 1);
        }
    } else {
        assert(first_open(more, from + 1) == more.len());
    }
}

impl<T> Memory<T> {
    /// The place of a linked cell in the chain.
    pub proof fn lemma_place(self, id: usize) -> (k: int)
        requires
            self.wf(),
            self.valid(id),
            self.lives[id as int] != Life::Fresh,
        ensures
            0 <= k < self.chain.len(),
            self.chain[k] == id,
            k < self.claimed <==> self.lives[id as int] != Life::Linked,
    {
        reveal(Memory::wf);
        let k = choose|k: int| 0 <= k < self.chain.len() && self.chain[k] == id;
        k
    }

    /// Every cell of the chain stands at one place only.
    pub proof fn lemma_place_of(self, k: int)
        requires
            self.wf(),
            0 <= k < self.chain.len(),
        ensures
            self.place(self.chain[k]) == k,
            self.valid(self.chain[k]),
            self.lives[self.chain[k] as int] != Life::Fresh,
    {
        reveal(Memory::wf);
    }

    /// Where a linked cell stands: at its place, and that far from the end.
    pub proof fn lemma_placed(self, id: usize)
        requires
            self.wf(),
            self.valid(id),
            self.lives[id as int] != Life::Fresh,
        ensures
            0 <= self.place(id) < self.chain.len(),
            self.chain[self.place(id)] == id,
            self.distance(id) >= 0,
            self.distance(id) == 0 <==> self.nodes[id as int].next.is_none(),
    {
        reveal(Memory::wf);
        let k = self.lemma_place(id);
        self.lemma_place_of(k);
        self.lemma_last(id);
    }

    /// A linked cell keeps its place when the chain grows.
    pub proof fn lemma_same_place(self, later: Self, id: usize)
        requires
            self.wf(),
            later.wf(),
            self.chain.is_prefix_of(later.chain),
            self.valid(id),
            self.lives[id as int] != Life::Fresh,
        ensures
            later.place(id) == self.place(id),
    {
        self.lemma_placed(id);
        let k = self.place(id);
        later.lemma_place_of(k);
    }

    /// The successor of a linked cell is the cell at the next place.
    pub proof fn lemma_succ(self, id: usize, n: usize)
        requires
            self.wf(),
            self.valid(id),
            self.lives[id as int] != Life::Fresh,
            self.nodes[id as int].next == Some(n),
        ensures
            self.valid(n),
            self.lives[n as int] != Life::Fresh,
            self.place(n) == self.place(id) + 1,
            n != id,
    {
        reveal(Memory::wf);
        self.lemma_placed(id);
        let k = self.place(id);
        self.lemma_place_of(k + 1);
    }

    /// Only the last cell of the chain has no successor.
    pub proof fn lemma_last(self, id: usize)
        requires
            self.wf(),
            self.valid(id),
            self.lives[id as int] != Life::Fresh,
        ensures
            self.nodes[id as int].next.is_none() <==> id == self.chain.last(),
            self.nodes[id as int].next.is_none() ==> self.lives[id as int] == Life::Linked,
    {
        reveal(Memory::wf);
    }

    /// The sizes of a well-formed memory.
    pub proof fn lemma_sizes(self)
        requires
            self.wf(),
        ensures
            self.lives.len() == self.nodes.len(),
            self.stamps.len() == self.nodes.len(),
            1 <= self.chain.len() <= self.nodes.len() <= usize::MAX,
            self.history.len() == self.chain.len() - 1,
            self.claimed < self.chain.len(),
            self.released <= self.retired.len() <= usize::MAX,
            self.guards.len() <= usize::MAX,
            self.policy == Reclaim::Immediate ==> self.released == self.retired.len(),
            self.valid(self.head),
            self.valid(self.tail),
            self.lives[self.tail as int] != Life::Fresh,
    {
        reveal(Memory::wf);
    }

    /// The front of a well-formed memory: the sentinel is linked, it is the
    /// last cell exactly if the queue is empty, and otherwise its successor
    /// holds the oldest waiting payload.
    pub proof fn lemma_front(self)
        requires
            self.wf(),
        ensures
            self.valid(self.head),
            self.lives[self.head as int] == Life::Linked,
            self.head == self.chain[self.claimed as int],
            self.nodes[self.head as int].next.is_none() <==> self.queue().len() == 0,
            self.nodes[self.head as int].next matches Some(n) ==> {
                &&& self.valid(n)
                &&& n != self.head
                &&& self.claimed + 1 < self.chain.len()
                &&& n == self.chain[self.claimed as int + 1]
                &&& self.lives[n as int] == Life::Linked
                &&& self.nodes[n as int].item == Some(self.queue()[0])
            },
    {
        reveal(Memory::wf);
        self.lemma_last(self.head);
    }

    /// A tail that is the last cell of the chain does not lag: no released
    /// cell stands at it or behind it.
    pub proof fn lemma_tidy(self)
        requires
            self.wf(),
            self.tidy(),
        ensures
            !self.lagging(),
    {
        reveal(Memory::wf);
        let n = self.chain.len() - 1;
        self.lemma_place_of(n);
        if self.lagging() {
            let k = choose|k: int|
                self.place(self.tail) <= k < self.chain.len() && self.life(#[trigger] self.chain[k])
                    == Life::Freed;
        }
    }

    /// Once every link and every head advance has been counted, the
    /// advisory length is the number of waiting payloads.
    pub proof fn lemma_settled(self)
        requires
            self.wf(),
            self.settled(),
        ensures
            self.count == self.queue().len(),
    {
        reveal(Memory::wf);
        lemma_wrap_small(self.count, self.adds - self.subs);
    }

    /// What an open guard stands for: it was opened when no more cells were
    /// retired than are now, and under deferred reclamation none of the
    /// cells retired since is released.
    pub proof fn lemma_guard_mark(self, g: usize)
        requires
            self.wf(),
            self.open(g),
        ensures
            self.guards[g as int].unwrap() <= self.retired.len(),
            self.policy == Reclaim::Deferred ==> self.released <= self.guards[g as int].unwrap(),
    {
        reveal(Memory::wf);
    }

    /// The cells that wait for their link are the cells recorded as fresh.
    pub proof fn lemma_fresh(self, id: usize)
        requires
            self.wf(),
        ensures
            self.fresh.contains(id) <==> self.valid(id) && self.lives[id as int] == Life::Fresh,
    {
        reveal(Memory::wf);
    }

    /// Release is never recorded in a cell: it follows from the cell's stamp.
    pub proof fn lemma_recorded(self, id: usize)
        requires
            self.wf(),
            self.valid(id),
        ensures
            self.lives[id as int] != Life::Freed,
            self.life(id) == Life::Freed <==> self.lives[id as int] == Life::Retired
                && self.stamps[id as int] < self.released,
    {
        reveal(Memory::wf);
    }

    /// A retired cell stands in the list of retired cells at its stamp.
    pub proof fn lemma_stamp(self, id: usize)
        requires
            self.wf(),
            self.valid(id),
            self.lives[id as int] == Life::Retired,
        ensures
            self.stamps[id as int] < self.retired.len(),
            self.retired[self.stamps[id as int] as int] == id,
    {
        reveal(Memory::wf);
    }

    /// No access changes the reclamation policy.
    pub proof fn lemma_perform_policy(self, hand: Hand<T>, action: Action)
        ensures
            self.perform(hand, action).0.policy == self.policy,
    {
    }

    /// Opening a guard keeps the memory well formed.
    pub proof fn lemma_pin_wf(self)
        requires
            self.wf(),
            self.guards.len() < usize::MAX,
        ensures
            self.pin().0.wf(),
    {
        reveal(Memory::wf);
    }

    /// Closing a guard keeps the memory well formed, and what was released
    /// stays released.
    pub proof fn lemma_unpin_wf(self, g: usize)
        requires
            self.wf(),
        ensures
            self.unpin(g).wf(),
            self.unpin(g).released >= self.released,
    {
        reveal(Memory::wf);
        if self.open(g) {
            let closed = Memory { guards: self.guards.update(g as int, None), ..self };
            lemma_first_open(closed.guards, 0);
        }
    }

    /// Allocating a cell keeps the memory well formed.
    pub proof fn lemma_allocate_wf(self, item: T)
        requires
            self.wf(),
            self.nodes.len() < usize::MAX,
        ensures
            self.allocate(item).0.wf(),
    {
        reveal(Memory::wf);
        let m = self.allocate(item).0;
        assert forall|i: int| 0 <= i < m.nodes.len() implies ((#[trigger] m.lives[i]) != Life::Fresh
            <==> m.chain.contains(i as usize)) by {}
    }

    /// Reading a link keeps the memory well formed.
    pub proof fn lemma_load_next_wf(self, at: usize)
        requires
            self.wf(),
        ensures
            self.load_next(at).0.wf(),
    {
        reveal(Memory::wf);
    }

    /// A link attempt keeps the memory well formed.
    #[verifier::rlimit(40)]
    pub proof fn lemma_cas_next_wf(self, at: usize, new: usize)
        requires
            self.wf(),
        ensures
            self.cas_next(at, new).0.wf(),
    {
        reveal(Memory::wf);
        let (m, ok) = self.cas_next(at, new);
        if ok {
            self.lemma_last(at);
            let n = self.chain.len() as int;
            assert forall|k: int| 0 <= k < m.chain.len() implies m.valid(#[trigger] m.chain[k]) by {}
            assert(m.chain.no_duplicates()) by {
                assert forall|i: int, j: int|
                    0 <= i < m.chain.len() && 0 <= j < m.chain.len() && i != j implies m.chain[i]
                    != m.chain[j] by {}
            }
            assert forall|i: int| 0 <= i < m.nodes.len() implies ((#[trigger] m.lives[i])
                != Life::Fresh <==> m.chain.contains(i as usize)) by {
                if i != new as int && self.chain.contains(i as usize) {
                    let k = choose|k: int| 0 <= k < n && self.chain[k] == i as usize;
                    assert(m.chain[k] == i as usize);
                }
            }
            assert forall|k: int| 0 <= k < m.chain.len() - 1 implies m.nodes[(
            #[trigger] m.chain[k]) as int].next == Some(m.chain[k + 1]) by {}
            assert forall|k: int| 0 <= k < m.chain.len() implies ((m.lives[(
            #[trigger] m.chain[k]) as int] == Life::Linked) <==> k >= m.claimed) by {}
            assert forall|k: int| m.claimed < k < m.chain.len() implies m.nodes[(
            #[trigger] m.chain[k]) as int].item == Some(m.history[k - 1]) by {}
            assert forall|k: int| 1 <= k <= m.claimed && k < m.chain.len() implies ({
                ||| m.nodes[(#[trigger] m.chain[k]) as int].item.is_none()
                ||| m.nodes[m.chain[k] as int].item == Some(m.history[k - 1])
            }) by {}
        }
    }

    /// A swing of the tail keeps the memory well formed.
    pub proof fn lemma_cas_tail_wf(self, from: usize, to: usize)
        requires
            self.wf(),
        ensures
            self.cas_tail(from, to).0.wf(),
    {
        reveal(Memory::wf);
    }

    /// A head advance keeps the memory well formed.
    #[verifier::rlimit(40)]
    pub proof fn lemma_cas_head_wf(self, from: usize, to: usize)
        requires
            self.wf(),
        ensures
            self.cas_head(from, to).0.wf(),
    {
        reveal(Memory::wf);
        let (m, ok) = self.cas_head(from, to);
        if ok {
            let c = self.claimed as int;
            self.lemma_last(from);
            assert forall|k: int| 0 <= k < m.chain.len() implies ((m.lives[(
            #[trigger] m.chain[k]) as int] == Life::Linked) <==> k >= m.claimed) by {}
            assert forall|i: int| 0 <= i < m.nodes.len() implies ((#[trigger] m.lives[i])
                != Life::Fresh <==> m.chain.contains(i as usize)) by {}
            assert forall|k: int| 1 <= k <= m.claimed && k < m.chain.len() implies (
            m.handed.contains(k - 1) <==> m.nodes[(#[trigger] m.chain[k]) as int].item.is_none()) by {
                if k == c + 1 {
                    if self.handed.contains(k - 1) {
                        let j = choose|j: int|
                            0 <= j < self.handed.len() && self.handed[j] == k - 1;
                    }
                }
            }
            assert forall|p: int| 0 <= p < m.retired.len() implies ({
                &&& m.valid(#[trigger] m.retired[p])
                &&& m.lives[m.retired[p] as int] == Life::Retired
                &&& m.stamps[m.retired[p] as int] == p
            }) by {}
        }
    }

    /// The place of a cell that the head reached.
    pub proof fn lemma_passed(self, at: usize) -> (k: int)
        requires
            self.wf(),
            self.passed(at),
        ensures
            0 <= k <= self.claimed,
            k < self.chain.len(),
            self.chain[k] == at,
    {
        reveal(Memory::wf);
        if at == self.head {
            self.claimed as int
        } else {
            self.lemma_place(at)
        }
    }

    /// Moving a payload out keeps the memory well formed.
    #[verifier::rlimit(40)]
    pub proof fn lemma_take_item_wf(self, at: usize)
        requires
            self.wf(),
        ensures
            self.take_item(at).0.wf(),
    {
        reveal(Memory::wf);
        let m = self.take_item(at).0;
        if self.passed(at) {
            let k0 = self.lemma_passed(at);
            self.lemma_place_of(k0);
            assert forall|k: int| 0 <= k < m.chain.len() - 1 implies m.nodes[(
            #[trigger] m.chain[k]) as int].next == Some(m.chain[k + 1]) by {}
            assert forall|k: int| m.claimed < k < m.chain.len() implies m.nodes[(
            #[trigger] m.chain[k]) as int].item == Some(m.history[k - 1]) by {}
            if self.nodes[at as int].item.is_some() {
                assert(m.handed.no_duplicates()) by {
                    assert forall|i: int, j: int|
                        0 <= i < m.handed.len() && 0 <= j < m.handed.len() && i != j implies m.handed[i]
                        != m.handed[j] by {}
                }
                assert forall|j: int| 0 <= j < m.handed.len() implies 0 <= (#[trigger] m.handed[j])
                    < m.claimed by {}
                assert forall|k: int| 1 <= k <= m.claimed && k < m.chain.len() implies (
                m.handed.contains(k - 1) <==> m.nodes[(#[trigger] m.chain[k]) as int].item.is_none()) by {
                    if k == k0 {
                        assert(m.handed[self.handed.len() as int] == k0 - 1);
                    } else {
                        if self.handed.contains(k - 1) {
                            let j = choose|j: int|
                                0 <= j < self.handed.len() && self.handed[j] == k - 1;
                            assert(m.handed[j] == k - 1);
                        }
                    }
                }
            } else {
                assert forall|k: int| 1 <= k <= m.claimed && k < m.chain.len() implies (
                m.handed.contains(k - 1) <==> m.nodes[(#[trigger] m.chain[k]) as int].item.is_none()) by {}
            }
        }
    }

    /// Handing a cell to the reclamation policy keeps the memory well
    /// formed.
    #[verifier::rlimit(40)]
    pub proof fn lemma_retire_wf(self, at: usize)
        requires
            self.wf(),
            self.retired.len() < usize::MAX,
        ensures
            self.retire(at).wf(),
    {
        reveal(Memory::wf);
        let m = self.retire(at);
        if self.valid(at) && self.lives[at as int] == Life::Detached {
            assert forall|i: int| 0 <= i < m.nodes.len() implies ((#[trigger] m.lives[i])
                != Life::Fresh <==> m.chain.contains(i as usize)) by {}
            assert forall|k: int| 0 <= k < m.chain.len() implies ((m.lives[(
            #[trigger] m.chain[k]) as int] == Life::Linked) <==> k >= m.claimed) by {}
            assert forall|p: int| 0 <= p < m.retired.len() implies ({
                &&& m.valid(#[trigger] m.retired[p])
                &&& m.lives[m.retired[p] as int] == Life::Retired
                &&& m.stamps[m.retired[p] as int] == p
            }) by {}
            assert forall|i: int|
                0 <= i < m.nodes.len() && (#[trigger] m.lives[i]) == Life::Retired implies ({
                &&& m.stamps[i] < m.retired.len()
                &&& m.retired[m.stamps[i] as int] == i
            }) by {}
        }
    }

    /// Adding to the advisory length keeps the memory well formed.
    pub proof fn lemma_add_len_wf(self)
        requires
            self.wf(),
        ensures
            self.add_len().wf(),
    {
        reveal(Memory::wf);
        lemma_wrap_bump(self.count, self.adds - self.subs);
    }

    /// Subtracting from the advisory length keeps the memory well formed.
    pub proof fn lemma_sub_len_wf(self)
        requires
            self.wf(),
        ensures
            self.sub_len().wf(),
    {
        reveal(Memory::wf);
        lemma_wrap_drop(self.count, self.adds - self.subs);
    }

    /// Whatever the access, whoever makes it and whenever: the memory stays
    /// well formed.
    pub proof fn lemma_perform_wf(self, hand: Hand<T>, action: Action)
        requires
            self.wf(),
            self.roomy(action),
        ensures
            self.perform(hand, action).0.wf(),
    {
        reveal(Memory::wf);
        match action {
            Action::Pin => {
                if hand.guard.is_none() {
                    self.lemma_pin_wf();
                }
            },
            Action::Unpin => {
                if let Some(g) = hand.guard {
                    self.lemma_unpin_wf(g);
                }
            },
            Action::Alloc => {
                if let Some(v) = hand.item {
                    self.lemma_allocate_wf(v);
                }
            },
            Action::LoadNext { at } => {
                self.lemma_load_next_wf(at);
            },
            Action::CasNext { at, new } => {
                self.lemma_cas_next_wf(at, new);
            },
            Action::CasTail { from, to } => {
                self.lemma_cas_tail_wf(from, to);
            },
            Action::CasHead { from, to } => {
                self.lemma_cas_head_wf(from, to);
            },
            Action::TakeItem { at } => {
                if hand.item.is_none() {
                    self.lemma_take_item_wf(at);
                }
            },
            Action::Retire { at } => {
                self.lemma_retire_wf(at);
            },
            Action::AddLen => {
                self.lemma_add_len_wf();
            },
            Action::SubLen => {
                self.lemma_sub_len_wf();
            },
            _ => {},
        }
    }
}

} // verus!
