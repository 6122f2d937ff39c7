//! What an operation relies on between two of its accesses, and which
//! accesses of others leave it untouched.

use crate::memory::{Hand, Memory};
use crate::node::Life;
use crate::protocol::Action;
use vstd::prelude::*;

verus! {

impl<T> Memory<T> {
    /// Whether the cell `node` is fresh and carries the payload `v`.
    pub open spec fn holds_fresh(self, node: usize, v: T) -> bool {
        &&& self.valid(node)
        &&& self.lives[node as int] == Life::Fresh
        &&& self.nodes[node as int].item == Some(v)
    }

    /// Whether the cell `x` was linked once.
    pub open spec fn knows(self, x: usize) -> bool {
        self.valid(x) && self.lives[x as int] != Life::Fresh
    }

    /// Whether the cell `n` is the successor of the linked cell `h`.
    pub open spec fn follows(self, h: usize, n: usize) -> bool {
        self.knows(h) && self.nodes[h as int].next == Some(n)
    }

    /// Whether the payload at place `k` of the history was claimed and still
    /// lies in the cell `n`.
    pub open spec fn keeps_claim(self, n: usize, k: int) -> bool {
        &&& self.passed(n)
        &&& 0 <= k < self.claimed
        &&& self.place(n) == k + 1
        &&& self.nodes[n as int].item == Some(self.history[k])
    }

    /// Whether the cell `h`, at place `k` of the chain, is detached and not
    /// handed to the reclamation policy yet.
    pub open spec fn keeps_husk(self, h: usize, k: int) -> bool {
        &&& self.valid(h)
        &&& self.lives[h as int] == Life::Detached
        &&& self.place(h) == k
    }

    /// An open guard stays open, and stays what it is, unless the operation
    /// that holds it closes it.
    pub proof fn lemma_keep_guard(self, hand: Hand<T>, action: Action, g: usize)
        requires
            self.wf(),
            self.open(g),
            !(action == Action::Unpin && hand.guard == Some(g)),
        ensures
            self.perform(hand, action).0.open(g),
            self.perform(hand, action).0.guards[g as int] == self.guards[g as int],
    {
    }

    /// A fresh cell stays fresh and keeps its payload until it is linked.
    #[verifier::rlimit(40)]
    pub proof fn lemma_keep_fresh(self, hand: Hand<T>, action: Action, node: usize, v: T)
        requires
            self.wf(),
            self.holds_fresh(node, v),
            !(action matches Action::CasNext { at, new } && new == node),
        ensures
            self.perform(hand, action).0.holds_fresh(node, v),
    {
        self.lemma_sizes();
        self.lemma_front();
    }

    /// A cell that was linked once stays known.
    pub proof fn lemma_keep_known(self, hand: Hand<T>, action: Action, x: usize)
        requires
            self.wf(),
            self.knows(x),
        ensures
            self.perform(hand, action).0.knows(x),
    {
        self.lemma_sizes();
    }

    /// A link that was set stays as it is.
    pub proof fn lemma_keep_link(self, hand: Hand<T>, action: Action, h: usize, n: usize)
        requires
            self.wf(),
            self.follows(h, n),
        ensures
            self.perform(hand, action).0.follows(h, n),
    {
        self.lemma_sizes();
        self.lemma_keep_known(hand, action, h);
    }

    /// A claimed payload stays in its cell until it is taken out of it.
    #[verifier::rlimit(40)]
    pub proof fn lemma_keep_claim(self, hand: Hand<T>, action: Action, n: usize, k: int)
        requires
            self.wf(),
            self.perform(hand, action).0.wf(),
            self.keeps_claim(n, k),
            !(action == (Action::TakeItem { at: n })),
        ensures
            self.perform(hand, action).0.keeps_claim(n, k),
    {
        let next = self.perform(hand, action).0;
        self.lemma_sizes();
        self.lemma_front();
        if n != self.head {
            self.lemma_keep_known(hand, action, n);
        }
        crate::laws::law_access_only_adds(self, hand, action);
        self.lemma_same_place(next, n);
    }

    /// A detached cell stays detached until it is handed to the reclamation
    /// policy.
    pub proof fn lemma_keep_husk(self, hand: Hand<T>, action: Action, h: usize, k: int)
        requires
            self.wf(),
            self.perform(hand, action).0.wf(),
            self.keeps_husk(h, k),
            !(action == (Action::Retire { at: h })),
        ensures
            self.perform(hand, action).0.keeps_husk(h, k),
    {
        let next = self.perform(hand, action).0;
        self.lemma_sizes();
        self.lemma_front();
        crate::laws::law_access_only_adds(self, hand, action);
        self.lemma_same_place(next, h);
    }
}

} // verus!
