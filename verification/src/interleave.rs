//! Every step of every operation keeps the invariant of the world.

use crate::laws::{
    law_access_only_adds, law_pop_meets_no_released_cell, law_pop_stays_shielded, Access,
};
use crate::memory::Memory;
use crate::node::Life;
use crate::protocol::{pop_step, push_step, Action, PopState, PushState, Reclaim, Repair};
use crate::world::{over, owes_add, owes_sub, tally, Move, Task, Worker, World};
use vstd::prelude::*;

verus! {

/// Replacing one operation changes a tally by what the old one and the new
/// one count.
pub proof fn lemma_tally_update<T>(
    ops: Seq<Worker<T>>,
    f: spec_fn(Worker<T>) -> bool,
    i: int,
    w: Worker<T>,
)
    requires
        0 <= i < ops.len(),
    ensures
        tally(ops.update(i, w), f) == tally(ops, f) - (if f(ops[i]) {
            1int
        } else {
            0int
        }) + (if f(w) {
            1int
        } else {
            0int
        }),
    decreases ops.len(),
{
    let after = ops.update(i, w);
    if i == ops.len() - 1 {
        assert(after.drop_last() =~= ops.drop_last());
    } else {
        assert(after.drop_last() =~= ops.drop_last().update(i, w));
        lemma_tally_update(ops.drop_last(), f, i, w);
    }
}

/// One more operation changes a tally by what it counts.
pub proof fn lemma_tally_push<T>(ops: Seq<Worker<T>>, f: spec_fn(Worker<T>) -> bool, w: Worker<T>)
    ensures
        tally(ops.push(w), f) == tally(ops, f) + (if f(w) {
            1int
        } else {
            0int
        }),
{
    assert(ops.push(w).drop_last() =~= ops);
}

/// Where no operation meets `f` the tally is zero.
pub proof fn lemma_tally_none<T>(ops: Seq<Worker<T>>, f: spec_fn(Worker<T>) -> bool)
    requires
        forall|i: int| 0 <= i < ops.len() ==> !f(#[trigger] ops[i]),
    ensures
        tally(ops, f) == 0,
    decreases ops.len(),
{
    if ops.len() > 0 {
        assert forall|i: int| 0 <= i < ops.drop_last().len() implies !f(
            #[trigger] ops.drop_last()[i],
        ) by {}
        lemma_tally_none(ops.drop_last(), f);
    }
}

impl<T> World<T> {
    /// Whether `i` names an operation whose next access the machine has room
    /// for.
    pub open spec fn can_step(self, i: int) -> bool {
        &&& 0 <= i < self.ops.len()
        &&& self.mem.roomy(self.access(i))
    }

    /// A new world meets the invariant.
    pub proof fn lemma_init(policy: Reclaim)
        ensures
            Self::init(policy).inv(),
    {
        Memory::<T>::lemma_init(policy);
    }

    /// What an operation that is over has done: a push linked its item at
    /// its ticket, a pop that claimed a payload holds the payload at its
    /// ticket, and a pop that claimed none holds nothing.
    pub proof fn law_results(self, i: int)
        requires
            self.inv(),
            0 <= i < self.ops.len(),
            over(self.ops[i]),
        ensures
            match self.ops[i].task {
                Task::Push { .. } => {
                    &&& self.ops[i].ticket.is_some()
                    &&& 0 <= self.ops[i].ticket.unwrap() < self.mem.history.len()
                    &&& Some(self.mem.history[self.ops[i].ticket.unwrap()]) == self.ops[i].goal
                },
                Task::Pop { pop } => if pop == (PopState::Done { got: true }) {
                    &&& self.ops[i].ticket.is_some()
                    &&& 0 <= self.ops[i].ticket.unwrap() < self.mem.claimed
                    &&& self.ops[i].hand.item == Some(
                        self.mem.history[self.ops[i].ticket.unwrap()],
                    )
                } else {
                    self.ops[i].hand.item.is_none()
                },
            },
    {
        assert(self.op_ok(i));
    }

    /// No two pushes link, and no two pops claim, the same place of the
    /// history: no item is inserted twice by one push, and no item is
    /// returned by two pops.
    pub proof fn law_tickets_differ(self, i: int, j: int)
        requires
            self.inv(),
            0 <= i < self.ops.len(),
            0 <= j < self.ops.len(),
            i != j,
            self.ops[i].ticket.is_some(),
            self.ops[i].task is Push <==> self.ops[j].task is Push,
        ensures
            self.ops[i].ticket != self.ops[j].ticket,
    {
        assert(self.op_ok(i));
        assert(self.op_ok(j));
    }

    /// Once every operation is over, the advisory length is the number of
    /// waiting items; and if none waits, every item that a push inserted
    /// was returned by a pop: the push and the pop that the records name
    /// for its place.
    pub proof fn law_quiescence(self)
        requires
            self.inv(),
            self.quiet(),
        ensures
            self.mem.settled(),
            self.mem.count == self.mem.queue().len(),
            forall|k: int|
                0 <= k < self.mem.history.len() ==> {
                    let by = #[trigger] self.pusher[k];
                    &&& 0 <= by < self.ops.len()
                    &&& self.ops[by].task is Push
                    &&& self.ops[by].goal == Some(self.mem.history[k])
                },
            forall|k: int|
                0 <= k < self.mem.claimed ==> {
                    let by = #[trigger] self.claimer[k];
                    &&& 0 <= by < self.ops.len()
                    &&& self.ops[by].task is Pop
                    &&& self.ops[by].hand.item == Some(self.mem.history[k])
                },
            self.mem.queue().len() == 0 ==> self.mem.claimed == self.mem.history.len(),
    {
        self.mem.lemma_sizes();
        lemma_tally_none(self.ops, |w: Worker<T>| owes_add(w));
        lemma_tally_none(self.ops, |w: Worker<T>| owes_sub(w));
        self.mem.lemma_settled();
        assert forall|k: int| 0 <= k < self.mem.history.len() implies ({
            let by = #[trigger] self.pusher[k];
            &&& 0 <= by < self.ops.len()
            &&& self.ops[by].task is Push
            &&& self.ops[by].goal == Some(self.mem.history[k])
        }) by {
            let by = self.pusher[k];
            assert(self.op_ok(by));
            assert(over(self.ops[by]));
        }
        assert forall|k: int| 0 <= k < self.mem.claimed implies ({
            let by = #[trigger] self.claimer[k];
            &&& 0 <= by < self.ops.len()
            &&& self.ops[by].task is Pop
            &&& self.ops[by].hand.item == Some(self.mem.history[k])
        }) by {
            let by = self.claimer[k];
            assert(self.op_ok(by));
            assert(over(self.ops[by]));
        }
    }

    /// Beginning a push keeps the invariant.
    pub proof fn lemma_begin_push(self, item: T, repair: Repair)
        requires
            self.inv(),
        ensures
            self.begin_push(item, repair).inv(),
    {
        let a = self.begin_push(item, repair);
        lemma_tally_push(self.ops, |w: Worker<T>| owes_add(w), a.ops.last());
        lemma_tally_push(self.ops, |w: Worker<T>| owes_sub(w), a.ops.last());
        assert forall|i: int| 0 <= i < a.ops.len() implies #[trigger] a.op_ok(i) by {
            if i < self.ops.len() {
                assert(self.op_ok(i));
            }
        }
        assert forall|k: int| 0 <= k < a.pusher.len() implies a.ops[#[trigger] a.pusher[k]]
            == self.ops[self.pusher[k]] by {}
        assert forall|k: int| 0 <= k < a.claimer.len() implies a.ops[#[trigger] a.claimer[k]]
            == self.ops[self.claimer[k]] by {}
    }

    /// Beginning a pop keeps the invariant.
    pub proof fn lemma_begin_pop(self)
        requires
            self.inv(),
        ensures
            self.begin_pop().inv(),
    {
        let b = self.begin_pop();
        lemma_tally_push(self.ops, |w: Worker<T>| owes_add(w), b.ops.last());
        lemma_tally_push(self.ops, |w: Worker<T>| owes_sub(w), b.ops.last());
        assert forall|i: int| 0 <= i < b.ops.len() implies #[trigger] b.op_ok(i) by {
            if i < self.ops.len() {
                assert(self.op_ok(i));
            }
        }
        assert forall|k: int| 0 <= k < b.pusher.len() implies b.ops[#[trigger] b.pusher[k]]
            == self.ops[self.pusher[k]] by {}
        assert forall|k: int| 0 <= k < b.claimer.len() implies b.ops[#[trigger] b.claimer[k]]
            == self.ops[self.claimer[k]] by {}
    }

    /// The memory stays well formed under a step.
    pub proof fn lemma_step_memory(self, i: int)
        requires
            self.inv(),
            self.can_step(i),
        ensures
            self.step(i).mem.wf(),
            self.step(i).mem == self.mem.perform(self.ops[i].hand, self.access(i)).0,
            self.step(i).ops.len() == self.ops.len(),
            forall|j: int| 0 <= j < self.ops.len() && j != i ==> self.step(i).ops[j] == self.ops[j],
    {
        self.mem.lemma_perform_wf(self.ops[i].hand, self.access(i));
    }

    /// The records stay complete under a step.
    #[verifier::rlimit(40)]
    pub proof fn lemma_step_records(self, i: int)
        requires
            self.inv(),
            self.can_step(i),
        ensures
            self.step(i).records_ok(),
            self.holder.is_prefix_of(self.step(i).holder),
            self.maker.is_prefix_of(self.step(i).maker),
            self.pusher.is_prefix_of(self.step(i).pusher),
            self.claimer.is_prefix_of(self.step(i).claimer),
    {
        let next = self.step(i);
        let op = self.ops[i];
        let m = self.mem;
        assert(self.op_ok(i));
        m.lemma_sizes();
        m.lemma_front();
        self.lemma_step_memory(i);
        assert forall|k: int| 0 <= k < next.pusher.len() implies ({
            &&& 0 <= (#[trigger] next.pusher[k]) < next.ops.len()
            &&& next.ops[next.pusher[k]].task is Push
            &&& next.ops[next.pusher[k]].ticket == Some(k)
        }) by {}
        assert forall|k: int| 0 <= k < next.claimer.len() implies ({
            &&& 0 <= (#[trigger] next.claimer[k]) < next.ops.len()
            &&& next.ops[next.claimer[k]].task is Pop
            &&& next.ops[next.claimer[k]].ticket == Some(k)
        }) by {}
    }

    /// The counts stay in step under a step.
    #[verifier::rlimit(40)]
    pub proof fn lemma_step_counts(self, i: int)
        requires
            self.inv(),
            self.can_step(i),
        ensures
            self.step(i).counts_ok(),
    {
        let next = self.step(i);
        let op = self.ops[i];
        let m = self.mem;
        m.lemma_sizes();
        m.lemma_front();
        lemma_tally_update(self.ops, |w: Worker<T>| owes_add(w), i, next.ops[i]);
        lemma_tally_update(self.ops, |w: Worker<T>| owes_sub(w), i, next.ops[i]);
        match op.task {
            Task::Push { push: state, repair } => {
                match state {
                    PushState::Link { node, origin, at } => {
                        let (mm, ok) = m.cas_next(at, node);
                    },
                    PushState::Follow { node, origin, at } => {
                        let (mm, got) = m.load_next(at);
                    },
                    PushState::Help { node, origin, next: n } => {
                        let (mm, ok) = m.cas_tail(origin, n);
                    },
                    PushState::Swing { node, origin } => {
                        let (mm, ok) = m.cas_tail(origin, node);
                    },
                    _ => {},
                }
            },
            Task::Pop { pop: state } => {
                match state {
                    PopState::ReadNext { head } => {
                        let (mm, got) = m.load_next(head);
                    },
                    PopState::Advance { head, next: n } => {
                        let (mm, ok) = m.cas_head(head, n);
                    },
                    PopState::Take { head, next: n } => {
                        let (mm, got) = m.take_item(n);
                    },
                    PopState::Retire { head } => {
                        let mm = m.retire(head);
                    },
                    _ => {},
                }
            },
        }
    }

    /// A step of a push keeps what holds of the push, and is refused
    /// nothing.
    #[verifier::rlimit(40)]
    pub proof fn lemma_own_push(self, i: int)
        requires
            self.inv(),
            self.can_step(i),
            self.ops[i].task is Push,
        ensures
            self.step(i).op_ok(i),
            self.step(i).mem.misuse == self.mem.misuse,
    {
        let op = self.ops[i];
        let m = self.mem;
        assert(self.op_ok(i));
        m.lemma_sizes();
        self.lemma_step_memory(i);
        self.lemma_step_records(i);
        law_access_only_adds(m, op.hand, self.access(i));
        if let Task::Push { push: state, repair } = op.task {
            if !(state is Enter || state is Done || state is Leave) {
                let g = op.hand.guard.unwrap();
                m.lemma_keep_guard(op.hand, push_step(state), g);
            }
            match state {
                PushState::Enter => {},
                PushState::Alloc => {},
                PushState::ReadTail { node } => {},
                PushState::Link { node, origin, at } => {},
                PushState::Follow { node, origin, at } => {
                    match m.nodes[at as int].next {
                        Some(n) => {
                            m.lemma_succ(at, n);
                        },
                        None => {},
                    }
                },
                PushState::Help { node, origin, next: n } => {},
                PushState::Swing { node, origin } => {},
                PushState::Count => {},
                PushState::Leave => {},
                PushState::Done => {},
            }
        }
    }

    /// A step of a pop keeps what holds of the pop, and is refused nothing;
    /// under deferred reclamation it meets no released cell.
    #[verifier::rlimit(40)]
    pub proof fn lemma_own_pop(self, i: int)
        requires
            self.inv(),
            self.can_step(i),
            self.ops[i].task is Pop,
        ensures
            self.step(i).op_ok(i),
            self.step(i).mem.misuse == self.mem.misuse,
            self.mem.policy == Reclaim::Deferred ==> self.step(i).mem.hazard == self.mem.hazard,
    {
        let op = self.ops[i];
        let m = self.mem;
        assert(self.op_ok(i));
        m.lemma_sizes();
        m.lemma_front();
        self.lemma_step_memory(i);
        self.lemma_step_records(i);
        law_access_only_adds(m, op.hand, self.access(i));
        if let Task::Pop { pop: state } = op.task {
            m.lemma_perform_policy(op.hand, pop_step(state));
            if m.policy == Reclaim::Deferred {
                law_pop_meets_no_released_cell(m, state, op.hand);
            }
            if !(state is Probe || state is Enter || state is Done || state is Leave) {
                let g = op.hand.guard.unwrap();
                m.lemma_keep_guard(op.hand, pop_step(state), g);
            }
            match state {
                PopState::Probe => {},
                PopState::Enter => {},
                PopState::ReadHead => {},
                PopState::ReadNext { head } => {},
                PopState::Advance { head, next: n } => {
                    let (mm, ok) = m.cas_head(head, n);
                    if ok {
                        let k = m.claimed as int;
                        m.lemma_place_of(k);
                        m.lemma_place_of(k + 1);
                    }
                },
                PopState::Take { head, next: n } => {
                    let k = op.ticket.unwrap();
                    m.lemma_keep_husk(op.hand, pop_step(state), head, k);
                },
                PopState::Retire { head } => {},
                PopState::Count => {},
                PopState::Leave { got } => {},
                PopState::Done { got } => {},
            }
        }
    }

    /// A step of one operation keeps what holds of every other.
    #[verifier::rlimit(40)]
    pub proof fn lemma_other(self, i: int, j: int)
        requires
            self.inv(),
            self.can_step(i),
            0 <= j < self.ops.len(),
            j != i,
        ensures
            self.step(i).op_ok(j),
    {
        let mine = self.ops[i];
        let op = self.ops[j];
        let m = self.mem;
        let action = self.access(i);
        assert(self.op_ok(i));
        assert(self.op_ok(j));
        m.lemma_sizes();
        self.lemma_step_memory(i);
        self.lemma_step_records(i);
        law_access_only_adds(m, mine.hand, action);
        // whoever closes a guard holds it
        if op.hand.guard.is_some() && m.open(op.hand.guard.unwrap()) && self.holder[op.hand.guard.unwrap() as int]
            == j {
            let g = op.hand.guard.unwrap();
            m.lemma_keep_guard(mine.hand, action, g);
        }
        match op.task {
            Task::Push { push: state, repair } => {
                let v = op.goal.unwrap();
                match state {
                    PushState::ReadTail { node } => {
                        self.lemma_fresh_is_mine(i, j, node);
                        m.lemma_keep_fresh(mine.hand, action, node, v);
                    },
                    PushState::Link { node, origin, at } => {
                        self.lemma_fresh_is_mine(i, j, node);
                        m.lemma_keep_fresh(mine.hand, action, node, v);
                        m.lemma_keep_known(mine.hand, action, at);
                    },
                    PushState::Follow { node, origin, at } => {
                        self.lemma_fresh_is_mine(i, j, node);
                        m.lemma_keep_fresh(mine.hand, action, node, v);
                        m.lemma_keep_known(mine.hand, action, at);
                    },
                    PushState::Help { node, origin, next: n } => {
                        self.lemma_fresh_is_mine(i, j, node);
                        m.lemma_keep_fresh(mine.hand, action, node, v);
                        m.lemma_keep_known(mine.hand, action, n);
                    },
                    PushState::Swing { node, origin } => {
                        m.lemma_keep_known(mine.hand, action, node);
                    },
                    _ => {},
                }
            },
            Task::Pop { pop: state } => {
                m.lemma_perform_policy(mine.hand, action);
                if m.policy == Reclaim::Deferred {
                    law_pop_stays_shielded(
                        m,
                        state,
                        op.hand,
                        Access { hand: mine.hand, action },
                    );
                }
                let holds = state is Retire || state is Count || state == (PopState::Leave {
                    got: true,
                }) || state == (PopState::Done { got: true });
                match state {
                    PopState::ReadNext { head } => {
                        m.lemma_keep_known(mine.hand, action, head);
                    },
                    PopState::Advance { head, next: n } => {
                        m.lemma_keep_link(mine.hand, action, head, n);
                    },
                    PopState::Take { head, next: n } => {
                        let k = op.ticket.unwrap();
                        self.lemma_claim_is_mine(i, j, n);
                        self.lemma_husk_is_mine(i, j, head);
                        m.lemma_keep_claim(mine.hand, action, n, k);
                        m.lemma_keep_husk(mine.hand, action, head, k);
                    },
                    PopState::Retire { head } => {
                        let k = op.ticket.unwrap();
                        self.lemma_husk_is_mine(i, j, head);
                        m.lemma_keep_husk(mine.hand, action, head, k);
                    },
                    _ => {},
                }
            },
        }
    }

    /// No other operation links the fresh cell of a push.
    proof fn lemma_fresh_is_mine(self, i: int, j: int, node: usize)
        requires
            self.inv(),
            0 <= i < self.ops.len(),
            0 <= j < self.ops.len(),
            j != i,
            self.mem.valid(node),
            self.maker[node as int] == j,
        ensures
            !(self.access(i) matches Action::CasNext { at, new } && new == node),
    {
        assert(self.op_ok(i));
    }

    /// No other operation takes the payload that a pop claimed.
    proof fn lemma_claim_is_mine(self, i: int, j: int, n: usize)
        requires
            self.inv(),
            0 <= i < self.ops.len(),
            0 <= j < self.ops.len(),
            j != i,
            self.claim_of(j) == Some(n),
        ensures
            !(self.access(i) == (Action::TakeItem { at: n })),
    {
        assert(self.op_ok(i));
        assert(self.op_ok(j));
    }

    /// No other operation retires the cell that a pop detached.
    proof fn lemma_husk_is_mine(self, i: int, j: int, h: usize)
        requires
            self.inv(),
            0 <= i < self.ops.len(),
            0 <= j < self.ops.len(),
            j != i,
            self.husk_of(j) == Some(h),
        ensures
            !(self.access(i) == (Action::Retire { at: h })),
    {
        assert(self.op_ok(i));
        assert(self.op_ok(j));
    }

    /// In every interleaving: a step of any operation keeps the invariant
    /// of the world and is refused nothing, and under deferred reclamation a
    /// step of a pop meets no released cell.
    pub proof fn law_step(self, i: int)
        requires
            self.inv(),
            self.can_step(i),
        ensures
            self.step(i).inv(),
            self.step(i).mem.misuse == self.mem.misuse,
            self.mem.policy == Reclaim::Deferred && self.ops[i].task is Pop ==> self.step(
                i,
            ).mem.hazard == self.mem.hazard,
    {
        let next = self.step(i);
        self.lemma_step_memory(i);
        self.lemma_step_records(i);
        self.lemma_step_counts(i);
        match self.ops[i].task {
            Task::Push { .. } => {
                self.lemma_own_push(i);
            },
            Task::Pop { .. } => {
                self.lemma_own_pop(i);
            },
        }
        assert forall|j: int| 0 <= j < next.ops.len() implies #[trigger] next.op_ok(j) by {
            if j != i {
                self.lemma_other(i, j);
            }
        }
    }

    /// In every run, from an empty queue or from any world that meets the
    /// invariant: whatever operations are begun and in whatever order they
    /// make their accesses, the invariant holds at the end and no access
    /// was refused.
    pub proof fn law_play(self, moves: Seq<Move<T>>)
        requires
            self.inv(),
            self.affords(moves),
        ensures
            self.play(moves).inv(),
            self.play(moves).mem.misuse == self.mem.misuse,
            self.play(moves).mem.policy == self.mem.policy,
        decreases moves.len(),
    {
        if moves.len() > 0 {
            self.law_play(moves.drop_last());
            let before = self.play(moves.drop_last());
            match moves.last() {
                Move::Push { item, repair } => {
                    before.lemma_begin_push(item, repair);
                },
                Move::Pop => {
                    before.lemma_begin_pop();
                },
                Move::Step { who } => {
                    if 0 <= who < before.ops.len() {
                        before.law_step(who);
                        before.mem.lemma_perform_policy(before.ops[who].hand, before.access(who));
                    }
                },
            }
        }
    }
}

} // verus!
