//! Any number of pushes and pops at once: a memory together with the
//! operations in flight, each advanced by its own decision machine, in any
//! order.

use crate::laws::pop_shielded;
use crate::memory::{Hand, Memory};
use crate::protocol::{
    pop_after, pop_step, push_after, push_step, Action, Event, PopState, PushState, Reclaim,
    Repair,
};
use vstd::prelude::*;

verus! {

/// What an operation does and where it stands.
pub enum Task {
    Push { push: PushState, repair: Repair },
    Pop { pop: PopState },
}

/// One operation of a world.
pub struct Worker<T> {
    pub task: Task,
    pub hand: Hand<T>,
    /// The item that a push is to insert.
    pub goal: Option<T>,
    /// The place in the history of the payload that a push linked or a pop
    /// claimed, once it did.
    pub ticket: Option<int>,
}

/// A memory and the operations that were begun on it, with the record of
/// who did what.
pub struct World<T> {
    pub mem: Memory<T>,
    pub ops: Seq<Worker<T>>,
    /// For every guard, the operation that opened it.
    pub holder: Seq<int>,
    /// For every cell, the operation that allocated it; the first sentinel
    /// has none.
    pub maker: Seq<int>,
    /// For every place of the history, the push that linked the payload.
    pub pusher: Seq<int>,
    /// For every claimed place of the history, the pop that claimed it.
    pub claimer: Seq<int>,
}

/// One move of a run: an operation is begun, or the operation with the
/// given number makes its next access.
pub enum Move<T> {
    Push { item: T, repair: Repair },
    Pop,
    Step { who: int },
}

/// Whether a push has linked its cell and not counted it yet.
pub open spec fn owes_add<T>(w: Worker<T>) -> bool {
    w.task matches Task::Push { push, .. } && (push is Swing || push is Count)
}

/// Whether a pop has advanced the head and not counted that yet.
pub open spec fn owes_sub<T>(w: Worker<T>) -> bool {
    w.task matches Task::Pop { pop } && (pop is Take || pop is Retire || pop is Count)
}

/// Whether an operation is over.
pub open spec fn over<T>(w: Worker<T>) -> bool {
    match w.task {
        Task::Push { push, .. } => push is Done,
        Task::Pop { pop } => pop is Done,
    }
}

/// How many of `ops` meet `f`.
pub open spec fn tally<T>(ops: Seq<Worker<T>>, f: spec_fn(Worker<T>) -> bool) -> int
    decreases ops.len(),
{
    if ops.len() == 0 {
        0
    } else {
        tally(ops.drop_last(), f) + if f(ops.last()) {
            1int
        } else {
            0int
        }
    }
}

impl<T> World<T> {
    /// A new queue with no operation begun.
    pub open spec fn init(policy: Reclaim) -> Self {
        World {
            mem: Memory::init(policy),
            ops: Seq::empty(),
            holder: Seq::empty(),
            maker: seq![-1int],
            pusher: Seq::empty(),
            claimer: Seq::empty(),
        }
    }

    /// The world after a push of `item` was begun.
    pub open spec fn begin_push(self, item: T, repair: Repair) -> Self {
        World {
            ops: self.ops.push(
                Worker {
                    task: Task::Push { push: PushState::Enter, repair },
                    hand: Hand { item: Some(item), guard: None },
                    goal: Some(item),
                    ticket: None,
                },
            ),
            ..self
        }
    }

    /// The world after a pop was begun.
    pub open spec fn begin_pop(self) -> Self {
        World {
            ops: self.ops.push(
                Worker {
                    task: Task::Pop { pop: PopState::Probe },
                    hand: Hand { item: None, guard: None },
                    goal: None,
                    ticket: None,
                },
            ),
            ..self
        }
    }

    /// The access that the operation `i` makes next.
    pub open spec fn access(self, i: int) -> Action {
        match self.ops[i].task {
            Task::Push { push: state, .. } => push_step(state),
            Task::Pop { pop: state } => pop_step(state),
        }
    }

    /// The world after the operation `i` made its next access.
    pub open spec fn step(self, i: int) -> Self {
        let op = self.ops[i];
        let action = self.access(i);
        let (mem, hand, ev) = self.mem.perform(op.hand, action);
        let won = match op.task {
            Task::Push { push: state, .. } => state is Link && ev == Event::Cas(true),
            Task::Pop { pop: state } => state is Advance && ev == Event::Cas(true),
        };
        let task = match op.task {
            Task::Push { push: state, repair } => Task::Push {
                push: push_after(state, ev, repair),
                repair,
            },
            Task::Pop { pop: state } => Task::Pop { pop: pop_after(state, ev) },
        };
        let ticket = if won {
            match op.task {
                Task::Push { .. } => Some(self.mem.history.len() as int),
                Task::Pop { .. } => Some(self.mem.claimed as int),
            }
        } else {
            op.ticket
        };
        World {
            mem,
            ops: self.ops.update(i, Worker { task, hand, goal: op.goal, ticket }),
            holder: if action == Action::Pin && op.hand.guard.is_none() {
                self.holder.push(i)
            } else {
                self.holder
            },
            maker: if action == Action::Alloc && op.hand.item.is_some() {
                self.maker.push(i)
            } else {
                self.maker
            },
            pusher: if won && op.task is Push {
                self.pusher.push(i)
            } else {
                self.pusher
            },
            claimer: if won && op.task is Pop {
                self.claimer.push(i)
            } else {
                self.claimer
            },
        }
    }

    /// The world after one move. A step of an operation that does not exist
    /// is no move at all.
    pub open spec fn make(self, mv: Move<T>) -> Self {
        match mv {
            Move::Push { item, repair } => self.begin_push(item, repair),
            Move::Pop => self.begin_pop(),
            Move::Step { who } => if 0 <= who < self.ops.len() {
                self.step(who)
            } else {
                self
            },
        }
    }

    /// The world after the moves of `moves`, one after the other.
    pub open spec fn play(self, moves: Seq<Move<T>>) -> Self
        decreases moves.len(),
    {
        if moves.len() == 0 {
            self
        } else {
            self.play(moves.drop_last()).make(moves.last())
        }
    }

    /// Whether the machine has room for every move of `moves` when its turn
    /// comes.
    pub open spec fn affords(self, moves: Seq<Move<T>>) -> bool
        decreases moves.len(),
    {
        moves.len() == 0 || {
            let before = self.play(moves.drop_last());
            &&& self.affords(moves.drop_last())
            &&& match moves.last() {
                Move::Step { who } => 0 <= who < before.ops.len() ==> before.mem.roomy(
                    before.access(who),
                ),
                _ => true,
            }
        }
    }

    /// Whether the operation `i` holds an open guard that is recorded as
    /// its own, or none where it needs none.
    pub open spec fn guard_ok(self, i: int, needs: bool) -> bool {
        let hand = self.ops[i].hand;
        if needs {
            &&& hand.guard.is_some()
            &&& self.mem.open(hand.guard.unwrap())
            &&& self.holder[hand.guard.unwrap() as int] == i
        } else {
            hand.guard.is_none()
        }
    }

    /// What holds of a push in flight.
    pub open spec fn push_ok(self, i: int, state: PushState, repair: Repair) -> bool {
        let op = self.ops[i];
        let m = self.mem;
        let linked = state is Swing || state is Count || state is Leave || state is Done;
        &&& op.goal.is_some()
        &&& op.hand.item == (if state is Enter || state is Alloc {
            op.goal
        } else {
            None
        })
        &&& self.guard_ok(i, !(state is Enter || state is Done))
        &&& if linked {
            &&& op.ticket.is_some()
            &&& 0 <= op.ticket.unwrap() < m.history.len()
            &&& m.history[op.ticket.unwrap()] == op.goal.unwrap()
            &&& self.pusher[op.ticket.unwrap()] == i
        } else {
            op.ticket.is_none()
        }
        &&& match state {
            PushState::ReadTail { node } => m.holds_fresh(node, op.goal.unwrap())
                && self.maker[node as int] == i,
            PushState::Link { node, origin, at } => m.holds_fresh(node, op.goal.unwrap())
                && self.maker[node as int] == i && m.knows(at),
            PushState::Follow { node, origin, at } => m.holds_fresh(node, op.goal.unwrap())
                && self.maker[node as int] == i && m.knows(at),
            PushState::Help { node, origin, next } => m.holds_fresh(node, op.goal.unwrap())
                && self.maker[node as int] == i && m.knows(next),
            PushState::Swing { node, origin } => m.knows(node),
            _ => true,
        }
    }

    /// What holds of a pop in flight.
    pub open spec fn pop_ok(self, i: int, state: PopState) -> bool {
        let op = self.ops[i];
        let m = self.mem;
        let holds = state is Retire || state is Count || state == (PopState::Leave { got: true })
            || state == (PopState::Done { got: true });
        let claimed = holds || state is Take;
        &&& self.guard_ok(i, !(state is Probe || state is Enter || state is Done))
        &&& if claimed {
            &&& op.ticket.is_some()
            &&& 0 <= op.ticket.unwrap() < m.claimed
            &&& op.ticket.unwrap() < m.history.len()
            &&& self.claimer[op.ticket.unwrap()] == i
        } else {
            op.ticket.is_none()
        }
        &&& op.hand.item == (if holds {
            Some(m.history[op.ticket.unwrap()])
        } else {
            None
        })
        &&& match state {
            PopState::ReadNext { head } => m.knows(head),
            PopState::Advance { head, next } => m.follows(head, next),
            PopState::Take { head, next } => m.keeps_claim(next, op.ticket.unwrap())
                && m.keeps_husk(head, op.ticket.unwrap()),
            PopState::Retire { head } => m.keeps_husk(head, op.ticket.unwrap()),
            _ => true,
        }
        &&& m.policy == Reclaim::Deferred ==> pop_shielded(m, state, op.hand)
    }

    /// The cell whose payload the operation `i` claimed and has not taken
    /// yet.
    pub open spec fn claim_of(self, i: int) -> Option<usize> {
        match self.ops[i].task {
            Task::Pop { pop: PopState::Take { head, next } } => Some(next),
            _ => None,
        }
    }

    /// The cell that the operation `i` detached and has not retired yet.
    pub open spec fn husk_of(self, i: int) -> Option<usize> {
        match self.ops[i].task {
            Task::Pop { pop: PopState::Take { head, next } } => Some(head),
            Task::Pop { pop: PopState::Retire { head } } => Some(head),
            _ => None,
        }
    }

    /// What holds of the operation `i`.
    pub open spec fn op_ok(self, i: int) -> bool {
        match self.ops[i].task {
            Task::Push { push: state, repair } => self.push_ok(i, state, repair),
            Task::Pop { pop: state } => self.pop_ok(i, state),
        }
    }

    /// The records are complete: every guard, cell, link and claim has its
    /// operation, and the operations that the records of links and claims
    /// name hold the matching tickets.
    pub open spec fn records_ok(self) -> bool {
        &&& self.holder.len() == self.mem.guards.len()
        &&& self.maker.len() == self.mem.nodes.len()
        &&& self.pusher.len() == self.mem.history.len()
        &&& self.claimer.len() == self.mem.claimed
        &&& forall|k: int|
            0 <= k < self.pusher.len() ==> {
                &&& 0 <= (#[trigger] self.pusher[k]) < self.ops.len()
                &&& self.ops[self.pusher[k]].task is Push
                &&& self.ops[self.pusher[k]].ticket == Some(k)
            }
        &&& forall|k: int|
            0 <= k < self.claimer.len() ==> {
                &&& 0 <= (#[trigger] self.claimer[k]) < self.ops.len()
                &&& self.ops[self.claimer[k]].task is Pop
                &&& self.ops[self.claimer[k]].ticket == Some(k)
            }
    }

    /// The counts are in step: what is linked and not added to the advisory
    /// length yet, or claimed and not subtracted yet, is what operations
    /// in flight still owe.
    pub open spec fn counts_ok(self) -> bool {
        &&& self.mem.history.len() - self.mem.adds == tally(self.ops, |w: Worker<T>| owes_add(w))
        &&& self.mem.claimed - self.mem.subs == tally(self.ops, |w: Worker<T>| owes_sub(w))
    }

    /// Whether every operation is over.
    pub open spec fn quiet(self) -> bool {
        forall|i: int| 0 <= i < self.ops.len() ==> over(#[trigger] self.ops[i])
    }

    /// The invariant of a world.
    pub open spec fn inv(self) -> bool {
        &&& self.mem.wf()
        &&& self.records_ok()
        &&& self.counts_ok()
        &&& forall|i: int| 0 <= i < self.ops.len() ==> #[trigger] self.op_ok(i)
    }
}

} // verus!
