//! Operations in flight: a decision machine together with what the
//! operation holds, advanced one access at a time on an arena.
//!
//! Operations of one arena may be advanced in any order. Each step is one
//! atomic access, so any order of steps is one interleaving of the
//! operations.

use crate::arena::Arena;
use crate::memory::Hand;
use crate::protocol::{
    pop_action, pop_after, pop_next, pop_step, push_action, push_after, push_next, push_step,
    Event, PopState, PushState, Repair,
};
use vstd::prelude::*;

verus! {

/// A push in flight.
pub struct PushOp<T> {
    pub state: PushState,
    pub hand: Hand<T>,
    pub repair: Repair,
}

/// A pop in flight.
pub struct PopOp<T> {
    pub state: PopState,
    pub hand: Hand<T>,
}

impl<T> PushOp<T> {
    /// A push of `item` that has not made any access yet.
    pub fn new(item: T, repair: Repair) -> (op: Self)
        ensures
            op.state == PushState::Enter,
            op.hand == (Hand { item: Some(item), guard: None }),
            op.repair == repair,
    {
        PushOp { state: PushState::Enter, hand: Hand { item: Some(item), guard: None }, repair }
    }

    /// Whether the push is over.
    pub fn done(&self) -> (b: bool)
        ensures
            b == (self.state == PushState::Done),
    {
        match self.state {
            PushState::Done => true,
            _ => false,
        }
    }

    /// Makes the next access of the push on `arena` and returns the answer.
    pub fn step(&mut self, arena: &mut Arena<T>) -> (ev: Event)
        requires
            old(arena).wf(),
        ensures
            final(arena).wf(),
            (final(arena)@, final(self).hand, ev) == old(arena)@.perform(
                old(self).hand,
                push_step(old(self).state),
            ),
            final(self).state == push_after(old(self).state, ev, old(self).repair),
            final(self).repair == old(self).repair,
    {
        let action = push_action(self.state);
        let ev = arena.perform(&mut self.hand, action);
        self.state = push_next(self.state, ev, self.repair);
        ev
    }
}

impl<T> PopOp<T> {
    /// A pop that has not made any access yet.
    pub fn new() -> (op: Self)
        ensures
            op.state == PopState::Probe,
            op.hand == (Hand::<T> { item: None, guard: None }),
    {
        PopOp { state: PopState::Probe, hand: Hand { item: None, guard: None } }
    }

    /// Whether the pop is over.
    pub fn done(&self) -> (b: bool)
        ensures
            b == (self.state is Done),
    {
        match self.state {
            PopState::Done { .. } => true,
            _ => false,
        }
    }

    /// Makes the next access of the pop on `arena` and returns the answer.
    pub fn step(&mut self, arena: &mut Arena<T>) -> (ev: Event)
        requires
            old(arena).wf(),
        ensures
            final(arena).wf(),
            (final(arena)@, final(self).hand, ev) == old(arena)@.perform(
                old(self).hand,
                pop_step(old(self).state),
            ),
            final(self).state == pop_after(old(self).state, ev),
    {
        let action = pop_action(self.state);
        let ev = arena.perform(&mut self.hand, action);
        self.state = pop_next(self.state, ev);
        ev
    }

    /// What the pop holds: once it is over, the item it removed, or `None`
    /// if it found the queue empty.
    pub fn into_item(self) -> (r: Option<T>)
        ensures
            r == self.hand.item,
    {
        self.hand.item
    }
}

} // verus!
