//! The push and pop algorithms as decision machines.
//!
//! A machine never touches memory. Its state names the next shared-memory
//! access ([`Action`]); whoever drives it performs that access, atomically,
//! and hands back what the memory answered ([`Event`]); the machine then moves
//! to its next state. Between two accesses of one operation any number of
//! accesses of other operations may take place.

use vstd::prelude::*;

verus! {

/// How a push finds the end of the chain again after its link attempt met a
/// cell that already has a successor.
#[derive(Clone, Copy, PartialEq, Eq, Debug, Structural)]
pub enum Repair {
    /// Swing the shared tail one cell forward, then start over from it.
    Helper,
    /// Walk forward with a private reference; touch the shared tail only
    /// after the own link succeeded.
    LocalWalk,
}

/// What happens to a detached sentinel.
#[derive(Clone, Copy, PartialEq, Eq, Debug, Structural)]
pub enum Reclaim {
    /// It is released at once.
    Immediate,
    /// It is released once every guard that was open when it was handed over
    /// has been closed.
    Deferred,
}

/// The strength of one atomic access.
#[derive(Clone, Copy, PartialEq, Eq, Debug, Structural)]
pub enum MemOrder {
    Relaxed,
    Acquire,
    Release,
    AcqRel,
    SeqCst,
}

/// One atomic access to the shared memory.
#[derive(Clone, Copy, PartialEq, Eq, Debug)]
pub enum Action {
    /// Open a guard for this operation.
    Pin,
    /// Close this operation's guard.
    Unpin,
    /// Allocate a cell for the payload this operation carries.
    Alloc,
    /// Read the advisory length.
    LoadLen,
    /// Read the head reference.
    LoadHead,
    /// Read the tail reference.
    LoadTail,
    /// Read the link of cell `at`.
    LoadNext { at: usize },
    /// Set the link of cell `at` to `new` if it is null.
    CasNext { at: usize, new: usize },
    /// Set the tail reference to `to` if it is `from`.
    CasTail { from: usize, to: usize },
    /// Set the head reference to `to` if it is `from`.
    CasHead { from: usize, to: usize },
    /// Move the payload out of cell `at`.
    TakeItem { at: usize },
    /// Hand cell `at` to the reclamation policy.
    Retire { at: usize },
    /// Add one to the advisory length.
    AddLen,
    /// Subtract one from the advisory length.
    SubLen,
    /// Nothing: the operation is over.
    Finish,
}

/// What the memory answered to one access.
#[derive(Clone, Copy, PartialEq, Eq, Debug)]
pub enum Event {
    /// The access has no answer.
    Unit,
    /// The advisory length that was read.
    Len(usize),
    /// The reference that was read or allocated.
    Ptr(Option<usize>),
    /// Whether the compare-and-swap took effect.
    Cas(bool),
}

/// Where a push stands.
#[derive(Clone, Copy, PartialEq, Eq, Debug)]
pub enum PushState {
    /// About to open its guard.
    Enter,
    /// About to allocate its cell.
    Alloc,
    /// About to read the tail.
    ReadTail { node: usize },
    /// About to link `node` behind `at`; `origin` is the tail it read.
    Link { node: usize, origin: usize, at: usize },
    /// The link failed: about to read the successor of `at`.
    Follow { node: usize, origin: usize, at: usize },
    /// About to swing the tail from `origin` to the successor it found.
    Help { node: usize, origin: usize, next: usize },
    /// Linked: about to swing the tail from `origin` to `node`.
    Swing { node: usize, origin: usize },
    /// About to count its item.
    Count,
    /// About to close its guard.
    Leave,
    /// Over.
    Done,
}

/// Where a pop stands.
#[derive(Clone, Copy, PartialEq, Eq, Debug)]
pub enum PopState {
    /// About to read the advisory length.
    Probe,
    /// About to open its guard.
    Enter,
    /// About to read the head.
    ReadHead,
    /// About to read the successor of the sentinel `head`.
    ReadNext { head: usize },
    /// About to advance the head from `head` to `next`.
    Advance { head: usize, next: usize },
    /// Won the advance: about to move the payload out of `next`.
    Take { head: usize, next: usize },
    /// About to hand the old sentinel `head` to the reclamation policy.
    Retire { head: usize },
    /// About to uncount its item.
    Count,
    /// About to close its guard; `got` tells whether it detached a cell.
    Leave { got: bool },
    /// Over; `got` tells whether it detached a cell.
    Done { got: bool },
}

/// The strength that the access `a` needs when it succeeds.
///
/// A link and a swing of head or tail publish a cell: they release, and
/// every read of a reference acquires, so that whoever follows a reference
/// sees the cell behind it whole, and a payload that was taken is seen as
/// taken. The advisory length is kept in one total order. An access that
/// fails needs no strength, nor does one that touches no shared word.
pub open spec fn strength_of(a: Action) -> MemOrder {
    match a {
        Action::LoadLen | Action::AddLen | Action::SubLen => MemOrder::SeqCst,
        Action::LoadHead | Action::LoadTail | Action::LoadNext { .. } => MemOrder::Acquire,
        Action::CasNext { .. } | Action::CasTail { .. } | Action::CasHead { .. } => MemOrder::Release,
        _ => MemOrder::Relaxed,
    }
}

/// The strength that the access `a` needs when it succeeds.
pub fn strength(a: Action) -> (m: MemOrder)
    ensures
        m == strength_of(a),
{
    match a {
        Action::LoadLen | Action::AddLen | Action::SubLen => MemOrder::SeqCst,
        Action::LoadHead | Action::LoadTail | Action::LoadNext { .. } => MemOrder::Acquire,
        Action::CasNext { .. } | Action::CasTail { .. } | Action::CasHead { .. } => MemOrder::Release,
        _ => MemOrder::Relaxed,
    }
}

/// The access a push makes next.
pub open spec fn push_step(s: PushState) -> Action {
    match s {
        PushState::Enter => Action::Pin,
        PushState::Alloc => Action::Alloc,
        PushState::ReadTail { .. } => Action::LoadTail,
        PushState::Link { node, at, .. } => Action::CasNext { at, new: node },
        PushState::Follow { at, .. } => Action::LoadNext { at },
        PushState::Help { origin, next, .. } => Action::CasTail { from: origin, to: next },
        PushState::Swing { node, origin } => Action::CasTail { from: origin, to: node },
        PushState::Count => Action::AddLen,
        PushState::Leave => Action::Unpin,
        PushState::Done => Action::Finish,
    }
}

/// The state a push reaches from `s` when its access was answered by `e`.
///
/// An answer of a kind that the access cannot give leaves the state as it is.
pub open spec fn push_after(s: PushState, e: Event, repair: Repair) -> PushState {
    match s {
        PushState::Enter => PushState::Alloc,
        PushState::Alloc => match e {
            Event::Ptr(Some(node)) => PushState::ReadTail { node },
            Event::Ptr(None) => PushState::Leave,
            _ => s,
        },
        PushState::ReadTail { node } => match e {
            Event::Ptr(Some(t)) => PushState::Link { node, origin: t, at: t },
            _ => s,
        },
        PushState::Link { node, origin, at } => match e {
            Event::Cas(true) => PushState::Swing { node, origin },
            Event::Cas(false) => PushState::Follow { node, origin, at },
            _ => s,
        },
        PushState::Follow { node, origin, at } => match e {
            Event::Ptr(Some(n)) => match repair {
                Repair::LocalWalk => PushState::Follow { node, origin, at: n },
                Repair::Helper => PushState::Help { node, origin, next: n },
            },
            Event::Ptr(None) => match repair {
                Repair::LocalWalk => PushState::Link { node, origin, at },
                Repair::Helper => PushState::ReadTail { node },
            },
            _ => s,
        },
        PushState::Help { node, .. } => PushState::ReadTail { node },
        PushState::Swing { .. } => PushState::Count,
        PushState::Count => PushState::Leave,
        PushState::Leave => PushState::Done,
        PushState::Done => PushState::Done,
    }
}

/// The access a pop makes next.
pub open spec fn pop_step(s: PopState) -> Action {
    match s {
        PopState::Probe => Action::LoadLen,
        PopState::Enter => Action::Pin,
        PopState::ReadHead => Action::LoadHead,
        PopState::ReadNext { head } => Action::LoadNext { at: head },
        PopState::Advance { head, next } => Action::CasHead { from: head, to: next },
        PopState::Take { next, .. } => Action::TakeItem { at: next },
        PopState::Retire { head } => Action::Retire { at: head },
        PopState::Count => Action::SubLen,
        PopState::Leave { .. } => Action::Unpin,
        PopState::Done { .. } => Action::Finish,
    }
}

/// The state a pop reaches from `s` when its access was answered by `e`.
///
/// An answer of a kind that the access cannot give leaves the state as it is.
pub open spec fn pop_after(s: PopState, e: Event) -> PopState {
    match s {
        PopState::Probe => match e {
            Event::Len(n) => if n == 0 {
                PopState::Done { got: false }
            } else {
                PopState::Enter
            },
            _ => s,
        },
        PopState::Enter => PopState::ReadHead,
        PopState::ReadHead => match e {
            Event::Ptr(Some(head)) => PopState::ReadNext { head },
            _ => s,
        },
        PopState::ReadNext { head } => match e {
            Event::Ptr(Some(next)) => PopState::Advance { head, next },
            Event::Ptr(None) => PopState::Leave { got: false },
            _ => s,
        },
        PopState::Advance { head, next } => match e {
            Event::Cas(true) => PopState::Take { head, next },
            Event::Cas(false) => PopState::ReadHead,
            _ => s,
        },
        PopState::Take { head, .. } => PopState::Retire { head },
        PopState::Retire { .. } => PopState::Count,
        PopState::Count => PopState::Leave { got: true },
        PopState::Leave { got } => PopState::Done { got },
        PopState::Done { got } => PopState::Done { got },
    }
}

/// A push counts its item only after its link took effect, and swings the
/// tail to its cell only then.
pub proof fn law_push_counts_after_link(s: PushState, e: Event, repair: Repair)
    ensures
        push_after(s, e, repair) is Swing ==> s is Link && e == Event::Cas(true),
        push_after(s, e, repair) is Count ==> s is Swing,
        push_after(s, e, repair) is Link ==> push_after(s, e, repair)->Link_node == (match s {
            PushState::ReadTail { node } => node,
            PushState::Follow { node, .. } => node,
            PushState::Link { node, .. } => node,
            _ => 0,
        }),
{
}

/// A pop takes a payload only after it won the head advance, takes it from
/// the cell it advanced the head to, retires the cell it advanced the head
/// from, and uncounts only after that.
pub proof fn law_pop_takes_after_advance(s: PopState, e: Event)
    ensures
        pop_after(s, e) matches PopState::Take { head, next } ==> s == (PopState::Advance {
            head,
            next,
        }) && e == Event::Cas(true),
        pop_after(s, e) matches PopState::Retire { head } ==> s is Take && s->Take_head == head,
        pop_after(s, e) is Count ==> s is Retire,
        pop_after(s, e) == (PopState::Leave { got: true }) ==> s is Count,
{
}

/// The access a push makes next.
pub fn push_action(s: PushState) -> (a: Action)
    ensures
        a == push_step(s),
{
    match s {
        PushState::Enter => Action::Pin,
        PushState::Alloc => Action::Alloc,
        PushState::ReadTail { .. } => Action::LoadTail,
        PushState::Link { node, at, .. } => Action::CasNext { at, new: node },
        PushState::Follow { at, .. } => Action::LoadNext { at },
        PushState::Help { origin, next, .. } => Action::CasTail { from: origin, to: next },
        PushState::Swing { node, origin } => Action::CasTail { from: origin, to: node },
        PushState::Count => Action::AddLen,
        PushState::Leave => Action::Unpin,
        PushState::Done => Action::Finish,
    }
}

/// Moves a push from `s` over the answer `e` to its next state.
pub fn push_next(s: PushState, e: Event, repair: Repair) -> (r: PushState)
    ensures
        r == push_after(s, e, repair),
{
    match s {
        PushState::Enter => PushState::Alloc,
        PushState::Alloc => match e {
            Event::Ptr(Some(node)) => PushState::ReadTail { node },
            Event::Ptr(None) => PushState::Leave,
            _ => s,
        },
        PushState::ReadTail { node } => match e {
            Event::Ptr(Some(t)) => PushState::Link { node, origin: t, at: t },
            _ => s,
        },
        PushState::Link { node, origin, at } => match e {
            Event::Cas(true) => PushState::Swing { node, origin },
            Event::Cas(false) => PushState::Follow { node, origin, at },
            _ => s,
        },
        PushState::Follow { node, origin, at } => match e {
            Event::Ptr(Some(n)) => match repair {
                Repair::LocalWalk => PushState::Follow { node, origin, at: n },
                Repair::Helper => PushState::Help { node, origin, next: n },
            },
            Event::Ptr(None) => match repair {
                Repair::LocalWalk => PushState::Link { node, origin, at },
                Repair::Helper => PushState::ReadTail { node },
            },
            _ => s,
        },
        PushState::Help { node, .. } => PushState::ReadTail { node },
        PushState::Swing { .. } => PushState::Count,
        PushState::Count => PushState::Leave,
        PushState::Leave => PushState::Done,
        PushState::Done => PushState::Done,
    }
}

/// The access a pop makes next.
pub fn pop_action(s: PopState) -> (a: Action)
    ensures
        a == pop_step(s),
{
    match s {
        PopState::Probe => Action::LoadLen,
        PopState::Enter => Action::Pin,
        PopState::ReadHead => Action::LoadHead,
        PopState::ReadNext { head } => Action::LoadNext { at: head },
        PopState::Advance { head, next } => Action::CasHead { from: head, to: next },
        PopState::Take { next, .. } => Action::TakeItem { at: next },
        PopState::Retire { head } => Action::Retire { at: head },
        PopState::Count => Action::SubLen,
        PopState::Leave { .. } => Action::Unpin,
        PopState::Done { .. } => Action::Finish,
    }
}

/// Moves a pop from `s` over the answer `e` to its next state.
pub fn pop_next(s: PopState, e: Event) -> (r: PopState)
    ensures
        r == pop_after(s, e),
{
    match s {
        PopState::Probe => match e {
            Event::Len(n) => if n == 0 {
                PopState::Done { got: false }
            } else {
                PopState::Enter
            },
            _ => s,
        },
        PopState::Enter => PopState::ReadHead,
        PopState::ReadHead => match e {
            Event::Ptr(Some(head)) => PopState::ReadNext { head },
            _ => s,
        },
        PopState::ReadNext { head } => match e {
            Event::Ptr(Some(next)) => PopState::Advance { head, next },
            Event::Ptr(None) => PopState::Leave { got: false },
            _ => s,
        },
        PopState::Advance { head, next } => match e {
            Event::Cas(true) => PopState::Take { head, next },
            Event::Cas(false) => PopState::ReadHead,
            _ => s,
        },
        PopState::Take { head, .. } => PopState::Retire { head },
        PopState::Retire { .. } => PopState::Count,
        PopState::Count => PopState::Leave { got: true },
        PopState::Leave { got } => PopState::Done { got },
        PopState::Done { got } => PopState::Done { got },
    }
}

} // verus!
