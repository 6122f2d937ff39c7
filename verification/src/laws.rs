//! What holds of the shared memory in every run: whatever accesses are made,
//! by however many operations, in whatever order.

use crate::memory::{Hand, Memory};
use crate::node::Life;
use crate::protocol::{
    pop_after, pop_step, push_after, push_step, Action, PopState, PushState, Reclaim, Repair,
};
use vstd::prelude::*;
use vstd::seq_lib::{to_multiset_build, to_multiset_contains, to_multiset_remove};
use vstd::set_lib::{lemma_int_range, set_int_range};

verus! {

/// One access of a run: what the operation that makes it holds, and the
/// access.
pub struct Access<T> {
    pub hand: Hand<T>,
    pub action: Action,
}

/// The memory after the accesses of `script` were made on `m`, one after the
/// other.
pub open spec fn run<T>(m: Memory<T>, script: Seq<Access<T>>) -> Memory<T>
    decreases script.len(),
{
    if script.len() == 0 {
        m
    } else {
        run(m, script.drop_last()).perform(script.last().hand, script.last().action).0
    }
}

/// Whether the machine has room for every access of `script` when its turn
/// comes.
pub open spec fn fits<T>(m: Memory<T>, script: Seq<Access<T>>) -> bool
    decreases script.len(),
{
    script.len() == 0 || (fits(m, script.drop_last()) && run(m, script.drop_last()).roomy(
        script.last().action,
    ))
}

/// How far a cell has come in its life.
pub open spec fn age(l: Life) -> nat {
    match l {
        Life::Fresh => 0,
        Life::Linked => 1,
        Life::Detached => 2,
        Life::Retired => 3,
        Life::Freed => 4,
    }
}

/// Whether nothing waits and every payload that a pop claimed was moved out
/// of its cell.
pub open spec fn drained<T>(m: Memory<T>) -> bool {
    &&& m.queue().len() == 0
    &&& forall|k: int|
        1 <= k < m.chain.len() ==> m.nodes[(#[trigger] m.chain[k]) as int].item.is_none()
}

/// Whether the guard `g`, opened at `mark`, is open and the cell `id` was
/// not handed to the reclamation policy before the guard was opened.
pub open spec fn shielded<T>(m: Memory<T>, g: usize, mark: usize, id: usize) -> bool {
    &&& m.open(g)
    &&& m.guards[g as int] == Some(mark)
    &&& m.valid(id)
    &&& m.lives[id as int] == Life::Retired ==> m.stamps[id as int] >= mark
}

/// Whether no access of `script` closes the guard `g`.
pub open spec fn keeps_open<T>(script: Seq<Access<T>>, g: usize) -> bool {
    forall|i: int|
        0 <= i < script.len() ==> !((#[trigger] script[i]).action == Action::Unpin
            && script[i].hand.guard == Some(g))
}

/// Every run keeps the memory well formed.
pub proof fn law_run_keeps_invariant<T>(m: Memory<T>, script: Seq<Access<T>>)
    requires
        m.wf(),
        fits(m, script),
    ensures
        run(m, script).wf(),
    decreases script.len(),
{
    if script.len() > 0 {
        law_run_keeps_invariant(m, script.drop_last());
        run(m, script.drop_last()).lemma_perform_wf(script.last().hand, script.last().action);
    }
}

/// No access takes back what was done: what was linked stays linked in its
/// place, what was claimed stays claimed, what was handed out stays handed
/// out.
pub proof fn law_access_only_adds<T>(m: Memory<T>, hand: Hand<T>, action: Action)
    requires
        m.wf(),
    ensures
        ({
            let next = m.perform(hand, action).0;
            &&& m.history.is_prefix_of(next.history)
            &&& m.chain.is_prefix_of(next.chain)
            &&& m.handed.is_prefix_of(next.handed)
            &&& m.retired.is_prefix_of(next.retired)
            &&& m.claimed <= next.claimed
            &&& m.released <= next.released
            &&& m.nodes.len() <= next.nodes.len()
        }),
{
    m.lemma_sizes();
    match action {
        Action::Unpin => {
            if let Some(g) = hand.guard {
                m.lemma_unpin_wf(g);
            }
        },
        Action::CasNext { at, new } => {},
        Action::TakeItem { at } => {},
        Action::Retire { at } => {},
        _ => {},
    }
}

/// Nothing is handed out twice: the payloads that were moved out of their
/// cells are payloads of different pushes, each linked and claimed before.
pub proof fn law_no_duplication<T>(m: Memory<T>)
    requires
        m.wf(),
    ensures
        m.handed.no_duplicates(),
        forall|j: int| 0 <= j < m.handed.len() ==> 0 <= (#[trigger] m.handed[j]) < m.claimed,
        m.claimed <= m.history.len(),
{
    reveal(Memory::wf);
}

/// What is moved out of a cell is the payload of a push that was linked and
/// claimed and not handed out before, and it is handed out by this.
pub proof fn law_take_hands_out_once<T>(m: Memory<T>, at: usize)
    requires
        m.wf(),
    ensures
        ({
            let (next, got) = m.take_item(at);
            match got {
                Some(v) => {
                    let k = m.place(at) - 1;
                    &&& 0 <= k < m.claimed
                    &&& v == m.history[k]
                    &&& !m.handed.contains(k)
                    &&& next.handed == m.handed.push(k)
                    &&& delivered(next) == delivered(m).push(v)
                },
                None => next.handed == m.handed && delivered(next) == delivered(m),
            }
        }),
{
    reveal(Memory::wf);
    if m.passed(at) {
        let k0 = m.lemma_passed(at);
        m.lemma_place_of(k0);
    }
}

/// Nothing is lost: once nothing waits and every claimed payload was moved
/// out of its cell, every payload that was ever linked has been handed out,
/// and as many were handed out as were linked.
pub proof fn law_no_loss<T>(m: Memory<T>)
    requires
        m.wf(),
        drained(m),
    ensures
        forall|k: int| 0 <= k < m.history.len() ==> m.handed.contains(k),
        m.handed.len() == m.history.len(),
{
    reveal(Memory::wf);
    let n = m.history.len() as int;
    assert forall|k: int| 0 <= k < n implies m.handed.contains(k) by {
        assert(m.nodes[m.chain[k + 1] as int].item.is_none());
    }
    assert(m.handed.to_set() =~= set_int_range(0, n)) by {
        assert forall|k: int| m.handed.to_set().contains(k) <==> set_int_range(0, n).contains(
            k,
        ) by {}
    }
    lemma_int_range(0, n);
    m.handed.unique_seq_to_set();
}

/// The payloads that were handed out, in the order of the handing out.
pub open spec fn delivered<T>(m: Memory<T>) -> Seq<T> {
    picked(m.history, m.handed)
}

/// The items of `s` at the places that `p` lists.
pub open spec fn picked<T>(s: Seq<T>, p: Seq<int>) -> Seq<T> {
    Seq::new(p.len(), |j: int| s[p[j]])
}

/// Picking every place of a sequence once gives the items of the sequence,
/// each as often as it occurs there.
proof fn lemma_picked_all<T>(s: Seq<T>, p: Seq<int>)
    requires
        p.no_duplicates(),
        p.len() == s.len(),
        forall|j: int| 0 <= j < p.len() ==> 0 <= (#[trigger] p[j]) < s.len(),
    ensures
        picked(s, p).to_multiset() =~= s.to_multiset(),
    decreases s.len(),
{
    if s.len() == 0 {
        assert(picked(s, p) =~= s);
    } else {
        let k = p.last();
        let front = p.drop_last();
        let rest = s.remove(k);
        let moved = Seq::new(
            front.len(),
            |j: int|
                if front[j] < k {
                    front[j]
                } else {
                    front[j] - 1
                },
        );
        assert forall|j: int| 0 <= j < moved.len() implies 0 <= (#[trigger] moved[j])
            < rest.len() by {}
        assert forall|i: int, j: int|
            0 <= i < moved.len() && 0 <= j < moved.len() && i != j implies moved[i]
            != moved[j] by {}
        lemma_picked_all(rest, moved);
        assert(picked(rest, moved) =~= picked(s, front)) by {
            assert forall|j: int| 0 <= j < front.len() implies picked(rest, moved)[j] == picked(
                s,
                front,
            )[j] by {}
        }
        assert(picked(s, p) =~= picked(s, front).push(s[k]));
        to_multiset_build(picked(s, front), s[k]);
        to_multiset_remove(s, k);
        to_multiset_contains(s, s[k]);
    }
}

/// What goes in comes out: once nothing waits and every claimed payload was
/// moved out of its cell, the payloads that were handed out are the payloads
/// that were linked, each as often as it was linked.
pub proof fn law_conservation<T>(m: Memory<T>)
    requires
        m.wf(),
        drained(m),
    ensures
        delivered(m).to_multiset() == m.history.to_multiset(),
        delivered(m).len() == m.history.len(),
{
    law_no_loss(m);
    law_no_duplication(m);
    lemma_picked_all(m.history, m.handed);
}

/// The advisory length converges: once every link and every head advance
/// has been counted, it is the number of waiting payloads.
pub proof fn law_length_converges<T>(m: Memory<T>)
    requires
        m.wf(),
        m.settled(),
    ensures
        m.count == m.queue().len(),
{
    m.lemma_settled();
}

/// Claims are made in link order: a head advance that takes effect claims
/// the oldest waiting payload and no other.
#[verifier::rlimit(40)]
pub proof fn law_claims_in_order<T>(m: Memory<T>, from: usize, to: usize)
    requires
        m.wf(),
        m.cas_head(from, to).1,
    ensures
        m.queue().len() > 0,
        m.nodes[to as int].item == Some(m.queue()[0]),
        m.cas_head(from, to).0.queue() == m.queue().skip(1),
        m.cas_head(from, to).0.claimed == m.claimed + 1,
        m.cas_head(from, to).0.life(from) == Life::Detached,
{
    m.lemma_front();
    m.lemma_sizes();
}

/// A link that takes effect appends the payload of the linked cell behind
/// all that wait, and nothing else changes what waits.
pub proof fn law_links_append<T>(m: Memory<T>, hand: Hand<T>, action: Action)
    requires
        m.wf(),
    ensures
        ({
            let next = m.perform(hand, action).0;
            match action {
                Action::CasNext { at, new } => if m.cas_next(at, new).1 {
                    next.queue() == m.queue().push(m.nodes[new as int].item.unwrap())
                } else {
                    next.queue() == m.queue()
                },
                Action::CasHead { from, to } => if m.cas_head(from, to).1 {
                    next.queue() == m.queue().skip(1)
                } else {
                    next.queue() == m.queue()
                },
                _ => next.queue() == m.queue(),
            }
        }),
{
    m.lemma_sizes();
    match action {
        Action::CasNext { at, new } => {},
        Action::CasHead { from, to } => {
            if m.cas_head(from, to).1 {
                law_claims_in_order(m, from, to);
            }
        },
        _ => {},
    }
}

/// The chain is a list without a cycle: every linked cell stands in it once,
/// each but the last is linked to the one behind it, the last is linked to
/// nothing, the head is the cell at the place up to which payloads were
/// claimed, and the tail is one of its cells.
pub proof fn law_chain_is_a_list<T>(m: Memory<T>)
    requires
        m.wf(),
    ensures
        m.chain.no_duplicates(),
        forall|k: int|
            0 <= k < m.chain.len() - 1 ==> m.nodes[(#[trigger] m.chain[k]) as int].next == Some(
                m.chain[k + 1],
            ),
        m.chain.len() >= 1,
        m.nodes[m.chain.last() as int].next.is_none(),
        m.claimed < m.chain.len(),
        m.head == m.chain[m.claimed as int],
        m.chain.contains(m.tail),
        m.queue().len() == m.chain.len() - 1 - m.claimed,
{
    reveal(Memory::wf);
}

/// The sentinel carries no payload, unless a pop that advanced the head to
/// it has not moved its payload out yet.
pub proof fn law_sentinel_is_empty<T>(m: Memory<T>)
    requires
        m.wf(),
    ensures
        m.claimed == 0 ==> m.nodes[m.head as int].item.is_none(),
        m.claimed > 0 ==> (m.nodes[m.head as int].item.is_none() <==> m.handed.contains(
            m.claimed - 1,
        )),
{
    reveal(Memory::wf);
}

/// A linked cell is detached by the head advance that moves the head off
/// it, and by nothing else.
#[verifier::rlimit(40)]
pub proof fn law_only_head_advance_detaches<T>(
    m: Memory<T>,
    hand: Hand<T>,
    action: Action,
    id: usize,
)
    requires
        m.wf(),
        m.valid(id),
        m.life(id) == Life::Linked,
        m.perform(hand, action).0.life(id) != Life::Linked,
    ensures
        action matches Action::CasHead { from, to } && from == id,
        m.head == id,
        m.perform(hand, action).1 == hand,
        m.perform(hand, action).2 == crate::protocol::Event::Cas(true),
        m.perform(hand, action).0.life(id) == Life::Detached,
{
    m.lemma_sizes();
    m.lemma_front();
}

/// A detached cell leaves that state when it is handed to the reclamation
/// policy, and by nothing else: then it is released at once, or retired.
#[verifier::rlimit(40)]
pub proof fn law_only_retire_ends_detached<T>(
    m: Memory<T>,
    hand: Hand<T>,
    action: Action,
    id: usize,
)
    requires
        m.wf(),
        m.valid(id),
        m.life(id) == Life::Detached,
        m.perform(hand, action).0.life(id) != Life::Detached,
    ensures
        action == (Action::Retire { at: id }),
        m.perform(hand, action).0.life(id) == (match m.policy {
            Reclaim::Immediate => Life::Freed,
            Reclaim::Deferred => Life::Retired,
        }),
{
    m.lemma_sizes();
    m.lemma_front();
}

/// A cell's life only advances: from fresh to linked, to detached, to
/// retired, to released, and never back.
#[verifier::rlimit(40)]
pub proof fn law_life_advances<T>(m: Memory<T>, hand: Hand<T>, action: Action, id: usize)
    requires
        m.wf(),
        m.valid(id),
    ensures
        m.perform(hand, action).0.valid(id),
        age(m.life(id)) <= age(m.perform(hand, action).0.life(id)),
{
    m.lemma_sizes();
    match action {
        Action::Unpin => {
            if let Some(g) = hand.guard {
                m.lemma_unpin_wf(g);
            }
        },
        Action::Alloc => {},
        Action::CasNext { at, new } => {},
        Action::CasHead { from, to } => {
            m.lemma_front();
        },
        Action::Retire { at } => {
            if m.lives[id as int] == Life::Retired {
                m.lemma_stamp(id);
            }
        },
        Action::TakeItem { at } => {},
        Action::LoadNext { at } => {},
        Action::CasTail { from, to } => {},
        Action::Pin => {},
        _ => {},
    }
}

/// A cell that was not retired before a guard was opened is not released
/// while the guard is open.
pub proof fn law_guard_shields<T>(m: Memory<T>, g: usize, mark: usize, id: usize)
    requires
        m.wf(),
        m.policy == Reclaim::Deferred,
        shielded(m, g, mark, id),
    ensures
        m.life(id) != Life::Freed,
{
    m.lemma_guard_mark(g);
    m.lemma_recorded(id);
}

/// No access but the closing of the guard itself ends its shielding of a
/// cell.
#[verifier::rlimit(40)]
pub proof fn law_shield_lasts<T>(
    m: Memory<T>,
    hand: Hand<T>,
    action: Action,
    g: usize,
    mark: usize,
    id: usize,
)
    requires
        m.wf(),
        shielded(m, g, mark, id),
        !(action == Action::Unpin && hand.guard == Some(g)),
    ensures
        shielded(m.perform(hand, action).0, g, mark, id),
{
    m.lemma_sizes();
    m.lemma_guard_mark(g);
}

/// Deferred reclamation is safe: a cell that was not retired when a guard
/// was opened is not released in any run that keeps the guard open.
pub proof fn law_deferred_reclamation<T>(
    m: Memory<T>,
    script: Seq<Access<T>>,
    g: usize,
    mark: usize,
    id: usize,
)
    requires
        m.wf(),
        m.policy == Reclaim::Deferred,
        fits(m, script),
        shielded(m, g, mark, id),
        keeps_open(script, g),
    ensures
        shielded(run(m, script), g, mark, id),
        run(m, script).life(id) != Life::Freed,
    decreases script.len(),
{
    if script.len() > 0 {
        let before = script.drop_last();
        assert forall|i: int| 0 <= i < before.len() implies !((#[trigger] before[i]).action
            == Action::Unpin && before[i].hand.guard == Some(g)) by {}
        law_deferred_reclamation(m, before, g, mark, id);
        law_run_keeps_invariant(m, before);
        law_run_keeps_invariant(m, script);
        let mid = run(m, before);
        law_shield_lasts(mid, script.last().hand, script.last().action, g, mark, id);
        mid.lemma_perform_policy(script.last().hand, script.last().action);
        law_run_policy(m, before);
        law_guard_shields(run(m, script), g, mark, id);
    } else {
        law_guard_shields(m, g, mark, id);
    }
}

/// No run changes the reclamation policy.
pub proof fn law_run_policy<T>(m: Memory<T>, script: Seq<Access<T>>)
    ensures
        run(m, script).policy == m.policy,
    decreases script.len(),
{
    if script.len() > 0 {
        law_run_policy(m, script.drop_last());
        run(m, script.drop_last()).lemma_perform_policy(script.last().hand, script.last().action);
    }
}

/// Whether every cell that was retired before `mark` stands in front of the
/// cell `head` in the chain.
pub open spec fn fenced<T>(m: Memory<T>, mark: usize, head: usize) -> bool {
    forall|id: usize|
        m.valid(id) && m.lives[id as int] == Life::Retired && (#[trigger] m.stamps[id as int])
            < mark ==> m.place(id) < m.place(head)
}

/// What shields a pop in state `st` that holds `hand`: once it has opened
/// its guard the guard is open, and no cell that it is going to access was
/// retired before the guard was opened.
pub open spec fn pop_shielded<T>(m: Memory<T>, st: PopState, hand: Hand<T>) -> bool {
    match st {
        PopState::Probe => hand.guard.is_none(),
        PopState::Enter => hand.guard.is_none(),
        PopState::Done { .. } => true,
        _ => hand.guard.is_some() && m.open(hand.guard.unwrap()) && {
            let g = hand.guard.unwrap();
            let mark = m.guards[g as int].unwrap();
            match st {
                PopState::ReadNext { head } => {
                    &&& m.valid(head)
                    &&& m.lives[head as int] != Life::Fresh
                    &&& fenced(m, mark, head)
                },
                PopState::Advance { head, next } => shielded(m, g, mark, next),
                PopState::Take { head, next } => shielded(m, g, mark, next),
                _ => true,
            }
        },
    }
}

/// Under deferred reclamation a pop never meets a released cell: an access
/// of a shielded pop records no hazard and leaves the pop shielded.
pub proof fn law_pop_meets_no_released_cell<T>(m: Memory<T>, st: PopState, hand: Hand<T>)
    requires
        m.wf(),
        m.policy == Reclaim::Deferred,
        pop_shielded(m, st, hand),
        m.perform(hand, pop_step(st)).0.wf(),
    ensures
        ({
            let (next, held, ev) = m.perform(hand, pop_step(st));
            &&& next.hazard == m.hazard
            &&& pop_shielded(next, pop_after(st, ev), held)
        }),
{
    m.lemma_sizes();
    match st {
        PopState::Probe => {},
        PopState::Enter => {},
        PopState::ReadHead => {
            let g = hand.guard.unwrap();
            let mark = m.guards[g as int].unwrap();
            m.lemma_front();
            assert forall|id: usize|
                m.valid(id) && m.lives[id as int] == Life::Retired && (#[trigger] m.stamps[id as int])
                    < mark implies m.place(id) < m.place(m.head) by {
                let k = m.lemma_place(id);
                m.lemma_place_of(k);
                m.lemma_place_of(m.claimed as int);
            }
        },
        PopState::ReadNext { head } => {
            let g = hand.guard.unwrap();
            m.lemma_guard_mark(g);
            m.lemma_recorded(head);
            match m.nodes[head as int].next {
                Some(n) => {
                    m.lemma_succ(head, n);
                },
                None => {},
            }
        },
        PopState::Advance { head, next: n } => {
            let g = hand.guard.unwrap();
        },
        PopState::Take { head, next: n } => {
            let g = hand.guard.unwrap();
            m.lemma_guard_mark(g);
            m.lemma_recorded(n);
        },
        PopState::Retire { head } => {},
        PopState::Count => {},
        PopState::Leave { .. } => {},
        PopState::Done { .. } => {},
    }
}

/// No access of another operation, unless it closes the pop's guard, ends
/// the shielding of a pop.
#[verifier::rlimit(40)]
pub proof fn law_pop_stays_shielded<T>(
    m: Memory<T>,
    st: PopState,
    hand: Hand<T>,
    other: Access<T>,
)
    requires
        m.wf(),
        m.perform(other.hand, other.action).0.wf(),
        pop_shielded(m, st, hand),
        !(other.action == Action::Unpin && other.hand.guard.is_some() && other.hand.guard
            == hand.guard),
    ensures
        pop_shielded(m.perform(other.hand, other.action).0, st, hand),
{
    let next = m.perform(other.hand, other.action).0;
    match st {
        PopState::Probe => {},
        PopState::Enter => {},
        PopState::Done { .. } => {},
        _ => {
            let g = hand.guard.unwrap();
            let mark = m.guards[g as int].unwrap();
            m.lemma_sizes();
            m.lemma_front();
            law_shield_lasts(m, other.hand, other.action, g, mark, m.head);
            match st {
                PopState::ReadNext { head } => {
                    law_shield_lasts(m, other.hand, other.action, g, mark, head);
                    law_life_advances(m, other.hand, other.action, head);
                    law_access_only_adds(m, other.hand, other.action);
                    m.lemma_recorded(head);
                    next.lemma_recorded(head);
                    next.lemma_sizes();
                    m.lemma_placed(head);
                    m.lemma_same_place(next, head);
                    assert forall|id: usize|
                        next.valid(id) && next.lives[id as int] == Life::Retired && (
                        #[trigger] next.stamps[id as int]) < mark implies next.place(id)
                        < next.place(head) by {
                        lemma_old_stamp(m, other.hand, other.action, id, g);
                        m.lemma_same_place(next, id);
                    }
                },
                PopState::Advance { head, next: n } => {
                    law_shield_lasts(m, other.hand, other.action, g, mark, n);
                },
                PopState::Take { head, next: n } => {
                    law_shield_lasts(m, other.hand, other.action, g, mark, n);
                },
                _ => {},
            }
        },
    }
}

/// A cell that bears a stamp from before the guard `g` was opened bore it
/// before the access too.
proof fn lemma_old_stamp<T>(m: Memory<T>, hand: Hand<T>, action: Action, id: usize, g: usize)
    requires
        m.wf(),
        m.open(g),
        ({
            let next = m.perform(hand, action).0;
            &&& next.valid(id)
            &&& next.lives[id as int] == Life::Retired
            &&& next.stamps[id as int] < m.guards[g as int].unwrap()
        }),
    ensures
        m.valid(id),
        m.lives[id as int] == Life::Retired,
        m.stamps[id as int] == m.perform(hand, action).0.stamps[id as int],
{
    m.lemma_sizes();
    m.lemma_guard_mark(g);
}

/// What shields a push in state `st` that holds `hand`: once it has opened
/// its guard the guard is open, and every cell that was retired before the
/// guard was opened stands in front of the cell that the push is going to
/// access.
pub open spec fn push_shielded<T>(m: Memory<T>, st: PushState, hand: Hand<T>) -> bool {
    match st {
        PushState::Enter => hand.guard.is_none(),
        PushState::Done => true,
        _ => hand.guard.is_some() && m.open(hand.guard.unwrap()) && {
            let g = hand.guard.unwrap();
            let mark = m.guards[g as int].unwrap();
            match st {
                PushState::Link { at, .. } | PushState::Follow { at, .. } => {
                    &&& m.valid(at)
                    &&& m.lives[at as int] != Life::Fresh
                    &&& fenced(m, mark, at)
                },
                _ => true,
            }
        },
    }
}

/// Under deferred reclamation a push meets a released cell only after it
/// read a tail that is no longer linked: as long as the tail it reads is
/// linked, an access of a shielded push records no hazard and leaves the
/// push shielded.
pub proof fn law_push_meets_no_released_cell<T>(
    m: Memory<T>,
    st: PushState,
    hand: Hand<T>,
    repair: Repair,
)
    requires
        m.wf(),
        m.policy == Reclaim::Deferred,
        push_shielded(m, st, hand),
        st is ReadTail ==> m.life(m.tail) == Life::Linked,
        m.perform(hand, push_step(st)).0.wf(),
    ensures
        ({
            let (next, held, ev) = m.perform(hand, push_step(st));
            &&& next.hazard == m.hazard
            &&& push_shielded(next, push_after(st, ev, repair), held)
        }),
{
    m.lemma_sizes();
    match st {
        PushState::Enter => {},
        PushState::Alloc => {},
        PushState::ReadTail { node } => {
            let g = hand.guard.unwrap();
            let mark = m.guards[g as int].unwrap();
            m.lemma_placed(m.tail);
            m.lemma_recorded(m.tail);
            let t = m.lemma_place(m.tail);
            assert forall|id: usize|
                m.valid(id) && m.lives[id as int] == Life::Retired && (#[trigger] m.stamps[id as int])
                    < mark implies m.place(id) < m.place(m.tail) by {
                let k = m.lemma_place(id);
                m.lemma_place_of(k);
                m.lemma_place_of(t);
            }
        },
        PushState::Link { node, origin, at } => {
            let g = hand.guard.unwrap();
            m.lemma_guard_mark(g);
            m.lemma_recorded(at);
        },
        PushState::Follow { node, origin, at } => {
            let g = hand.guard.unwrap();
            let mark = m.guards[g as int].unwrap();
            m.lemma_guard_mark(g);
            m.lemma_recorded(at);
            m.lemma_placed(at);
            match m.nodes[at as int].next {
                Some(n) => {
                    m.lemma_succ(at, n);
                    assert forall|id: usize|
                        m.valid(id) && m.lives[id as int] == Life::Retired && (
                        #[trigger] m.stamps[id as int]) < mark implies m.place(id) < m.place(
                        n,
                    ) by {}
                },
                None => {},
            }
        },
        PushState::Help { node, origin, next: n } => {},
        PushState::Swing { node, origin } => {},
        PushState::Count => {},
        PushState::Leave => {},
        PushState::Done => {},
    }
}

/// No access of another operation, unless it closes the push's guard, ends
/// the shielding of a push.
#[verifier::rlimit(40)]
pub proof fn law_push_stays_shielded<T>(
    m: Memory<T>,
    st: PushState,
    hand: Hand<T>,
    other: Access<T>,
)
    requires
        m.wf(),
        m.perform(other.hand, other.action).0.wf(),
        push_shielded(m, st, hand),
        !(other.action == Action::Unpin && other.hand.guard.is_some() && other.hand.guard
            == hand.guard),
    ensures
        push_shielded(m.perform(other.hand, other.action).0, st, hand),
{
    let next = m.perform(other.hand, other.action).0;
    match st {
        PushState::Enter => {},
        PushState::Done => {},
        _ => {
            let g = hand.guard.unwrap();
            let mark = m.guards[g as int].unwrap();
            m.lemma_sizes();
            m.lemma_front();
            law_shield_lasts(m, other.hand, other.action, g, mark, m.head);
            match st {
                PushState::Link { at, .. } | PushState::Follow { at, .. } => {
                    law_life_advances(m, other.hand, other.action, at);
                    law_access_only_adds(m, other.hand, other.action);
                    m.lemma_recorded(at);
                    next.lemma_recorded(at);
                    next.lemma_sizes();
                    m.lemma_same_place(next, at);
                    assert forall|id: usize|
                        next.valid(id) && next.lives[id as int] == Life::Retired && (
                        #[trigger] next.stamps[id as int]) < mark implies next.place(id)
                        < next.place(at) by {
                        lemma_old_stamp(m, other.hand, other.action, id, g);
                        m.lemma_same_place(next, id);
                    }
                },
                _ => {},
            }
        },
    }
}

} // verus!
