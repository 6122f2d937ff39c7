//! A queue together with its operations in flight, advanced one access at a
//! time in whatever order the caller chooses.
//!
//! What [`crate::interleave`] proves of every interleaving holds of every
//! [`Crowd`]: no access is ever refused, every pop that is over holds the
//! item it claimed, and under deferred reclamation no pop meets a released
//! cell.

use crate::arena::Arena;
use crate::engine::{PopOp, PushOp};
use crate::node::Life;
use crate::protocol::{Action, Event, PopState, PushState, Reclaim, Repair};
use crate::world::{Move, Task, Worker, World};
use vstd::prelude::*;

verus! {

/// An operation in flight.
pub enum Job<T> {
    Push(PushOp<T>),
    Pop(PopOp<T>),
}

/// The operation `job` as the world sees it, with what is recorded of it.
pub open spec fn worker<T>(job: Job<T>, goal: Option<T>, ticket: Option<int>) -> Worker<T> {
    match job {
        Job::Push(op) => Worker {
            task: Task::Push { push: op.state, repair: op.repair },
            hand: op.hand,
            goal,
            ticket,
        },
        Job::Pop(op) => Worker { task: Task::Pop { pop: op.state }, hand: op.hand, goal, ticket },
    }
}

/// A queue and the operations that were begun on it.
pub struct Crowd<T> {
    arena: Arena<T>,
    jobs: Vec<Job<T>>,
    goals: Ghost<Seq<Option<T>>>,
    tickets: Ghost<Seq<Option<int>>>,
    holder: Ghost<Seq<int>>,
    maker: Ghost<Seq<int>>,
    pusher: Ghost<Seq<int>>,
    claimer: Ghost<Seq<int>>,
}

impl<T> View for Crowd<T> {
    type V = World<T>;

    closed spec fn view(&self) -> World<T> {
        World {
            mem: self.arena@,
            ops: Seq::new(
                self.jobs@.len(),
                |i: int| worker(self.jobs@[i], self.goals@[i], self.tickets@[i]),
            ),
            holder: self.holder@,
            maker: self.maker@,
            pusher: self.pusher@,
            claimer: self.claimer@,
        }
    }
}

impl<T> Crowd<T> {
    /// The crowd's invariant: the invariant of its world.
    pub closed spec fn wf(&self) -> bool {
        &&& self.arena.wf()
        &&& self.goals@.len() == self.jobs@.len()
        &&& self.tickets@.len() == self.jobs@.len()
        &&& self@.inv()
    }

    /// A well-formed crowd is a world that meets the invariant.
    pub proof fn lemma_wf(&self)
        requires
            self.wf(),
        ensures
            self@.inv(),
    {
    }

    /// A new queue with no operation begun.
    pub fn new(policy: Reclaim) -> (c: Self)
        ensures
            c.wf(),
            c@ == World::<T>::init(policy),
    {
        let c = Crowd {
            arena: Arena::new(policy),
            jobs: Vec::new(),
            goals: Ghost(Seq::empty()),
            tickets: Ghost(Seq::empty()),
            holder: Ghost(Seq::empty()),
            maker: Ghost(Seq::empty().push(-1int)),
            pusher: Ghost(Seq::empty()),
            claimer: Ghost(Seq::empty()),
        };
        proof {
            World::<T>::lemma_init(policy);
            assert(c@.ops =~= World::<T>::init(policy).ops);
        }
        c
    }

    /// Begins a push of `item` and returns its number.
    pub fn begin_push(&mut self, item: T, repair: Repair) -> (id: usize)
        requires
            old(self).wf(),
        ensures
            final(self).wf(),
            final(self)@ == old(self)@.begin_push(item, repair),
            id == old(self)@.ops.len(),
    {
        let id = self.jobs.len();
        self.jobs.push(Job::Push(PushOp::new(item, repair)));
        proof {
            self.goals@ = self.goals@.push(Some(item));
            self.tickets@ = self.tickets@.push(None);
            assert(self@.ops =~= old(self)@.begin_push(item, repair).ops);
            old(self)@.lemma_begin_push(item, repair);
        }
        id
    }

    /// Begins a pop and returns its number.
    pub fn begin_pop(&mut self) -> (id: usize)
        requires
            old(self).wf(),
        ensures
            final(self).wf(),
            final(self)@ == old(self)@.begin_pop(),
            id == old(self)@.ops.len(),
    {
        let id = self.jobs.len();
        self.jobs.push(Job::Pop(PopOp::new()));
        proof {
            self.goals@ = self.goals@.push(None);
            self.tickets@ = self.tickets@.push(None);
            assert(self@.ops =~= old(self)@.begin_pop().ops);
            old(self)@.lemma_begin_pop();
        }
        id
    }

    /// How many operations were begun.
    pub fn len(&self) -> (n: usize)
        ensures
            n == self@.ops.len(),
    {
        self.jobs.len()
    }

    /// Whether the operation `id` is over; an operation that was never
    /// begun is.
    pub fn done(&self, id: usize) -> (b: bool)
        ensures
            b == (id >= self@.ops.len() || crate::world::over(self@.ops[id as int])),
    {
        if id >= self.jobs.len() {
            true
        } else {
            match &self.jobs[id] {
                Job::Push(op) => op.done(),
                Job::Pop(op) => op.done(),
            }
        }
    }

    /// What the operation `id` holds: for a pop that is over, the item it
    /// removed.
    pub fn held(&self, id: usize) -> (r: Option<&T>)
        ensures
            r == (if id < self@.ops.len() {
                match self@.ops[id as int].hand.item {
                    Some(v) => Some(&v),
                    None => None,
                }
            } else {
                None
            }),
    {
        if id >= self.jobs.len() {
            None
        } else {
            match &self.jobs[id] {
                Job::Push(op) => op.hand.item.as_ref(),
                Job::Pop(op) => op.hand.item.as_ref(),
            }
        }
    }

    /// Lets the operation `id` make its next access, and tells whether the
    /// operation is over then. An operation that was never begun makes none.
    pub fn step(&mut self, id: usize) -> (over: bool)
        requires
            old(self).wf(),
        ensures
            final(self).wf(),
            final(self)@ == old(self)@.make(Move::Step { who: id as int }),
            over == (id >= final(self)@.ops.len() || crate::world::over(
                final(self)@.ops[id as int],
            )),
            final(self)@.mem.misuse == old(self)@.mem.misuse,
            old(self)@.mem.policy == Reclaim::Deferred && id < old(self)@.ops.len() && old(
                self,
            )@.ops[id as int].task is Pop ==> final(self)@.mem.hazard == old(self)@.mem.hazard,
    {
        if id >= self.jobs.len() {
            return true;
        }
        let ghost w = self@;
        let ghost i = id as int;
        let ghost action = w.access(i);
        let ghost was = w.ops[i];
        proof {
            self.arena.lemma_wf();
            assert(w.op_ok(i));
        }
        let over;
        let ghost won;
        match &mut self.jobs[id] {
            Job::Push(op) => {
                let ghost st = op.state;
                let ev = op.step(&mut self.arena);
                over = op.done();
                proof {
                    won = st is Link && ev == Event::Cas(true);
                }
            },
            Job::Pop(op) => {
                let ghost st = op.state;
                let ev = op.step(&mut self.arena);
                over = op.done();
                proof {
                    won = st is Advance && ev == Event::Cas(true);
                }
            },
        }
        proof {
            self.arena.lemma_wf();
            self.arena@.lemma_sizes();
            w.mem.lemma_sizes();
            if won {
                if was.task is Push {
                    self.tickets@ = self.tickets@.update(i, Some(w.mem.history.len() as int));
                    self.pusher@ = self.pusher@.push(i);
                } else {
                    self.tickets@ = self.tickets@.update(i, Some(w.mem.claimed as int));
                    self.claimer@ = self.claimer@.push(i);
                }
            }
            if action == Action::Pin && was.hand.guard.is_none() {
                self.holder@ = self.holder@.push(i);
            }
            if action == Action::Alloc && was.hand.item.is_some() {
                self.maker@ = self.maker@.push(i);
            }
            assert(self@.ops =~= w.step(i).ops);
            w.law_step(i);
        }
        over
    }

    /// Where the push `id` stands; `None` if `id` is no push.
    pub fn push_state(&self, id: usize) -> (r: Option<PushState>)
        ensures
            r == (if id < self@.ops.len() {
                match self@.ops[id as int].task {
                    Task::Push { push, .. } => Some(push),
                    Task::Pop { .. } => None,
                }
            } else {
                None
            }),
    {
        if id >= self.jobs.len() {
            None
        } else {
            match &self.jobs[id] {
                Job::Push(op) => Some(op.state),
                Job::Pop(_) => None,
            }
        }
    }

    /// Where the pop `id` stands; `None` if `id` is no pop.
    pub fn pop_state(&self, id: usize) -> (r: Option<PopState>)
        ensures
            r == (if id < self@.ops.len() {
                match self@.ops[id as int].task {
                    Task::Pop { pop } => Some(pop),
                    Task::Push { .. } => None,
                }
            } else {
                None
            }),
    {
        if id >= self.jobs.len() {
            None
        } else {
            match &self.jobs[id] {
                Job::Pop(op) => Some(op.state),
                Job::Push(_) => None,
            }
        }
    }

    /// The advisory length.
    pub fn size(&self) -> (n: usize)
        ensures
            n == self@.mem.count,
    {
        self.arena.size()
    }

    /// Whether the advisory length reads zero.
    pub fn is_empty(&self) -> (b: bool)
        ensures
            b == (self@.mem.count == 0),
    {
        self.arena.is_empty()
    }

    /// Where the cell `cell` stands in its life; `None` if there is no such
    /// cell.
    pub fn life(&self, cell: usize) -> (l: Option<Life>)
        requires
            self.wf(),
        ensures
            l == (if self@.mem.valid(cell) {
                Some(self@.mem.life(cell))
            } else {
                None
            }),
    {
        self.arena.life(cell)
    }

    /// The cells from the sentinel to the end of the chain, in chain order.
    pub fn walk(&self) -> (cells: Vec<usize>)
        requires
            self.wf(),
        ensures
            cells@ == self@.mem.chain.skip(self@.mem.claimed as int),
            cells@.len() == self@.mem.queue().len() + 1,
    {
        self.arena.walk()
    }

    /// Whether some operation accessed a released cell.
    pub fn hazard(&self) -> (b: bool)
        ensures
            b == self@.mem.hazard,
    {
        self.arena.hazard()
    }

    /// Whether some access was refused: never.
    pub fn misuse(&self) -> (b: bool)
        ensures
            b == self@.mem.misuse,
    {
        self.arena.misuse()
    }
}

} // verus!
