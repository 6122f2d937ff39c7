//! What one operation does when it runs from its first access to its last
//! with no other access in between.

use crate::arena::Arena;
use crate::engine::{PopOp, PushOp};
use crate::memory::{bump, drop_one, Hand, Memory};
use crate::node::{Life, Node};
use crate::protocol::{
    pop_after, pop_step, push_after, push_step, Event, PopState, PushState, Reclaim, Repair,
};
use crate::soundness::{lemma_first_open, lemma_first_open_push};
use vstd::prelude::*;

verus! {

/// The memory after a pop that ran alone on `m`, and what the pop returned.
///
/// The pop gives up at once if the advisory length reads zero. Otherwise it
/// opens a guard and reads the sentinel's link. If the link is null it
/// closes the guard and gives up; else it advances the head, moves the
/// payload out of the new sentinel, retires the old one, subtracts one from
/// the advisory length and closes the guard.
pub open spec fn pop_alone<T>(m: Memory<T>) -> (Memory<T>, Option<T>) {
    if m.count == 0 {
        (m, None)
    } else {
        let (m1, g) = m.pin();
        match m.nodes[m.head as int].next {
            None => (m1.unpin(g), None),
            Some(n) => {
                let m2 = m1.cas_head(m.head, n).0;
                let (m3, v) = m2.take_item(n);
                (m3.retire(m.head).sub_len().unpin(g), v)
            },
        }
    }
}

/// Where a pop that runs alone on `pre` stands when it is in state `st`:
/// the memory `cur` and the hand `hand` it must have reached.
pub open spec fn pop_trace<T>(pre: Memory<T>, cur: Memory<T>, st: PopState, hand: Hand<T>) -> bool {
    let (m1, g) = pre.pin();
    let pinned = Hand::<T> { item: None, guard: Some(g) };
    let idle = Hand::<T> { item: None, guard: None };
    let link = pre.nodes[pre.head as int].next;
    match st {
        PopState::Probe => cur == pre && hand == idle,
        PopState::Enter => cur == pre && hand == idle && pre.count != 0,
        PopState::ReadHead => cur == m1 && hand == pinned && pre.count != 0,
        PopState::ReadNext { head } => cur == m1 && hand == pinned && pre.count != 0 && head
            == pre.head,
        PopState::Advance { head, next } => cur == m1 && hand == pinned && pre.count != 0 && head
            == pre.head && link == Some(next),
        PopState::Take { head, next } => cur == m1.cas_head(pre.head, next).0 && hand == pinned
            && pre.count != 0 && head == pre.head && link == Some(next),
        PopState::Retire { head } => pre.count != 0 && head == pre.head && link.is_some() && {
            let m2 = m1.cas_head(pre.head, link.unwrap()).0;
            let (m3, v) = m2.take_item(link.unwrap());
            cur == m3 && hand == Hand::<T> { item: v, guard: Some(g) }
        },
        PopState::Count => pre.count != 0 && link.is_some() && {
            let m2 = m1.cas_head(pre.head, link.unwrap()).0;
            let (m3, v) = m2.take_item(link.unwrap());
            cur == m3.retire(pre.head) && hand == Hand::<T> { item: v, guard: Some(g) }
        },
        PopState::Leave { got } => pre.count != 0 && got == link.is_some() && if got {
            let m2 = m1.cas_head(pre.head, link.unwrap()).0;
            let (m3, v) = m2.take_item(link.unwrap());
            cur == m3.retire(pre.head).sub_len() && hand == Hand::<T> { item: v, guard: Some(g) }
        } else {
            cur == m1 && hand == pinned
        },
        PopState::Done { got } => cur == pop_alone(pre).0 && hand == Hand::<T> {
            item: pop_alone(pre).1,
            guard: None,
        },
    }
}

/// How many accesses a pop that runs alone has left at most.
pub open spec fn pop_fuel(st: PopState) -> nat {
    match st {
        PopState::Probe => 9,
        PopState::Enter => 8,
        PopState::ReadHead => 7,
        PopState::ReadNext { .. } => 6,
        PopState::Advance { .. } => 5,
        PopState::Take { .. } => 4,
        PopState::Retire { .. } => 3,
        PopState::Count => 2,
        PopState::Leave { .. } => 1,
        PopState::Done { .. } => 0,
    }
}

/// One access of a pop that runs alone keeps it on its trace and uses up
/// fuel.
pub proof fn lemma_pop_trace_step<T>(pre: Memory<T>, cur: Memory<T>, st: PopState, hand: Hand<T>)
    requires
        pre.wf(),
        pop_trace(pre, cur, st, hand),
        !(st is Done),
    ensures
        ({
            let (next, held, ev) = cur.perform(hand, pop_step(st));
            &&& pop_trace(pre, next, pop_after(st, ev), held)
            &&& pop_fuel(pop_after(st, ev)) < pop_fuel(st)
        }),
{
    pre.lemma_front();
    pre.lemma_sizes();
}

/// What a pop that ran alone did, in short: it returned the oldest waiting
/// payload and removed it from the queue, unless the advisory length read
/// zero or the queue was empty; it counted what it removed and recorded it
/// as handed out; it retired the sentinel it detached; it neither met a
/// released cell nor was it refused anything.
pub open spec fn popped<T>(pre: Memory<T>, post: Memory<T>, r: Option<T>) -> bool {
    let found = pre.count != 0 && pre.queue().len() > 0;
    &&& r == (if found {
        Some(pre.queue()[0])
    } else {
        None
    })
    &&& post.queue() == (if found {
        pre.queue().skip(1)
    } else {
        pre.queue()
    })
    &&& post.history == pre.history
    &&& post.claimed == (if found {
        pre.claimed + 1
    } else {
        pre.claimed
    })
    &&& post.count == (if found {
        drop_one(pre.count)
    } else {
        pre.count
    })
    &&& post.adds == pre.adds
    &&& post.subs == (if found {
        pre.subs + 1
    } else {
        pre.subs
    })
    &&& post.retired == (if found {
        pre.retired.push(pre.head)
    } else {
        pre.retired
    })
    &&& post.handed == (if found {
        pre.handed.push(pre.claimed as int)
    } else {
        pre.handed
    })
    &&& post.tail == pre.tail
    &&& post.chain == pre.chain
    &&& post.head == post.chain[post.claimed as int]
    &&& post.policy == pre.policy
    &&& post.hazard == pre.hazard
    &&& post.misuse == pre.misuse
    &&& post.released >= pre.released
    &&& forall|g: usize| post.open(g) <==> pre.open(g)
}

/// A pop that ran alone did what `popped` says.
#[verifier::rlimit(40)]
pub proof fn lemma_pop_alone<T>(pre: Memory<T>)
    requires
        pre.wf(),
        pop_alone(pre).0.wf(),
    ensures
        popped(pre, pop_alone(pre).0, pop_alone(pre).1),
{
    let (post, r) = pop_alone(pre);
    pre.lemma_front();
    pre.lemma_sizes();
    post.lemma_sizes();
    if pre.count != 0 {
        let (m1, g) = pre.pin();
        pre.lemma_pin_wf();
        match pre.nodes[pre.head as int].next {
            None => {
                m1.lemma_unpin_wf(g);
                assert forall|h: usize| post.open(h) <==> pre.open(h) by {}
            },
            Some(n) => {
                let m2 = m1.cas_head(pre.head, n).0;
                m1.lemma_cas_head_wf(pre.head, n);
                let (m3, v) = m2.take_item(n);
                m2.lemma_take_item_wf(n);
                m2.lemma_place_of(pre.claimed as int + 1);
                let m4 = m3.retire(pre.head);
                m3.lemma_retire_wf(pre.head);
                let m5 = m4.sub_len();
                m4.lemma_sub_len_wf();
                m5.lemma_unpin_wf(g);
                assert(post.queue() =~= pre.queue().skip(1));
                assert forall|h: usize| post.open(h) <==> pre.open(h) by {}
            },
        }
    }
}

/// Runs one pop on `arena` from its first access to its last.
pub fn run_pop<T>(arena: &mut Arena<T>) -> (r: Option<T>)
    requires
        old(arena).wf(),
    ensures
        final(arena).wf(),
        (final(arena)@, r) == pop_alone(old(arena)@),
{
    let ghost pre = arena@;
    let mut op = PopOp::new();
    proof {
        arena.lemma_wf();
    }
    while !op.done()
        invariant
            arena.wf(),
            pre.wf(),
            pop_trace(pre, arena@, op.state, op.hand),
        decreases pop_fuel(op.state),
    {
        proof {
            arena.lemma_wf();
            lemma_pop_trace_step(pre, arena@, op.state, op.hand);
        }
        op.step(arena);
    }
    op.into_item()
}

/// What a push of `item` that ran alone did, in short: the item waits
/// behind all that waited before, in a new cell that is now the tail; the
/// item was counted; the push was refused nothing, and it met a released
/// cell exactly if one stood at the tail or behind it.
pub open spec fn pushed<T>(pre: Memory<T>, post: Memory<T>, item: T) -> bool {
    &&& post.queue() == pre.queue().push(item)
    &&& post.history == pre.history.push(item)
    &&& post.claimed == pre.claimed
    &&& post.chain == pre.chain.push(pre.nodes.len() as usize)
    &&& post.tail == pre.nodes.len()
    &&& post.head == pre.head
    &&& post.count == bump(pre.count)
    &&& post.adds == pre.adds + 1
    &&& post.subs == pre.subs
    &&& post.policy == pre.policy
    &&& post.retired == pre.retired
    &&& post.released == (match pre.policy {
        Reclaim::Immediate => pre.released,
        Reclaim::Deferred => pre.floor(),
    })
    &&& post.misuse == pre.misuse
    &&& post.handed == pre.handed
    &&& post.hazard == (pre.hazard || pre.lagging())
    &&& forall|g: usize| post.open(g) <==> pre.open(g)
}

/// The memory after a push of `item` that ran alone on `m`.
///
/// The push opens a guard, allocates a cell for the item, finds the last
/// cell of the chain from the tail on, links its cell there, swings the
/// tail to it, adds one to the advisory length and closes the guard. On its
/// way from the tail to the last cell it accesses every cell in between.
pub open spec fn push_alone<T>(m: Memory<T>, item: T) -> Memory<T> {
    let id = m.nodes.len() as usize;
    let last = m.chain.last();
    Memory {
        nodes: m.nodes.update(
            last as int,
            Node { item: m.nodes[last as int].item, next: Some(id) },
        ).push(Node { item: Some(item), next: None }),
        lives: m.lives.push(Life::Linked),
        stamps: m.stamps.push(0usize),
        tail: id,
        count: bump(m.count),
        guards: m.guards.push(None),
        released: match m.policy {
            Reclaim::Immediate => m.released,
            Reclaim::Deferred => m.floor(),
        },
        hazard: m.hazard || m.lagging(),
        chain: m.chain.push(id),
        history: m.history.push(item),
        adds: m.adds + 1,
        ..m
    }
}

/// The cells as a push in state `st` that runs alone on `pre` has them.
pub open spec fn push_nodes<T>(pre: Memory<T>, st: PushState, item: T) -> Seq<Node<T>> {
    let id = pre.nodes.len() as usize;
    let last = pre.chain.last();
    if st is Enter || st is Alloc {
        pre.nodes
    } else if st is Swing || st is Count || st is Leave || st is Done {
        pre.nodes.update(
            last as int,
            Node { item: pre.nodes[last as int].item, next: Some(id) },
        ).push(Node { item: Some(item), next: None })
    } else {
        pre.nodes.push(Node { item: Some(item), next: None })
    }
}

/// Whether the push has met every released cell that stands between the
/// tail it began with and the place `upto` of the chain.
pub open spec fn met_all<T>(pre: Memory<T>, cur: Memory<T>, upto: int) -> bool {
    forall|k: int|
        pre.place(pre.tail) <= k < upto && k < pre.chain.len() && pre.life(
            #[trigger] pre.chain[k],
        ) == Life::Freed ==> cur.hazard
}

/// The place of the chain up to which a push in state `st` has come.
pub open spec fn push_reach<T>(pre: Memory<T>, cur: Memory<T>, st: PushState) -> int {
    match st {
        PushState::Enter | PushState::Alloc | PushState::ReadTail { .. } => pre.place(cur.tail),
        PushState::Link { at, .. } | PushState::Follow { at, .. } => pre.place(at),
        PushState::Help { origin, .. } => pre.place(origin) + 1,
        _ => pre.chain.len() as int,
    }
}

/// What holds of a push of `item` that runs alone on `pre` whenever it stands
/// in state `st` with the memory `cur` and the hand `hand`.
pub open spec fn push_trace<T>(
    pre: Memory<T>,
    cur: Memory<T>,
    st: PushState,
    hand: Hand<T>,
    repair: Repair,
    item: T,
) -> bool {
    let id = pre.nodes.len() as usize;
    let g = pre.guards.len() as usize;
    let pinned = pre.guards.push(Some(pre.retired.len() as usize));
    let linked = st is Swing || st is Count || st is Leave || st is Done;
    let counted = st is Leave || st is Done;
    &&& cur.policy == pre.policy
    &&& cur.retired == pre.retired
    &&& cur.head == pre.head
    &&& cur.claimed == pre.claimed
    &&& cur.subs == pre.subs
    &&& cur.misuse == pre.misuse
    &&& cur.handed == pre.handed
    &&& pre.hazard ==> cur.hazard
    &&& cur.hazard ==> pre.hazard || pre.lagging()
    &&& met_all(pre, cur, push_reach(pre, cur, st))
    &&& cur.nodes == push_nodes(pre, st, item)
    &&& cur.lives == (if st is Enter || st is Alloc {
        pre.lives
    } else if linked {
        pre.lives.push(Life::Linked)
    } else {
        pre.lives.push(Life::Fresh)
    })
    &&& cur.stamps == (if st is Enter || st is Alloc {
        pre.stamps
    } else {
        pre.stamps.push(0usize)
    })
    &&& cur.fresh == (if st is Enter || st is Alloc || linked {
        pre.fresh
    } else {
        pre.fresh.insert(id)
    })
    &&& cur.chain == (if linked {
        pre.chain.push(id)
    } else {
        pre.chain
    })
    &&& cur.history == (if linked {
        pre.history.push(item)
    } else {
        pre.history
    })
    &&& cur.count == (if counted {
        bump(pre.count)
    } else {
        pre.count
    })
    &&& cur.adds == (if counted {
        pre.adds + 1
    } else {
        pre.adds
    })
    &&& cur.guards == (if st is Enter {
        pre.guards
    } else if st is Done {
        pre.guards.push(None)
    } else {
        pinned
    })
    &&& cur.released == (if st is Done {
        match pre.policy {
            Reclaim::Immediate => pre.released,
            Reclaim::Deferred => pre.floor(),
        }
    } else {
        pre.released
    })
    &&& hand == (Hand::<T> {
        item: if st is Enter || st is Alloc {
            Some(item)
        } else {
            None
        },
        guard: if st is Enter || st is Done {
            None
        } else {
            Some(g)
        },
    })
    &&& !linked ==> {
        &&& pre.valid(cur.tail)
        &&& pre.place(cur.tail) >= pre.place(pre.tail)
        &&& repair == Repair::LocalWalk ==> cur.tail == pre.tail
    }
    &&& match st {
        PushState::Enter => true,
        PushState::Alloc => true,
        PushState::ReadTail { node } => {
            &&& node == id
            &&& cur.lives[id as int] == Life::Fresh
            &&& cur.nodes[id as int].item == Some(item)
        },
        PushState::Link { node, origin, at } => {
            &&& node == id
            &&& cur.lives[id as int] == Life::Fresh
            &&& cur.nodes[id as int].item == Some(item)
            &&& origin == cur.tail
            &&& pre.valid(at)
            &&& pre.lives[at as int] != Life::Fresh
            &&& pre.place(at) >= pre.place(pre.tail)
            &&& repair == Repair::Helper ==> at == origin
        },
        PushState::Follow { node, origin, at } => {
            &&& node == id
            &&& cur.lives[id as int] == Life::Fresh
            &&& cur.nodes[id as int].item == Some(item)
            &&& origin == cur.tail
            &&& pre.valid(at)
            &&& pre.lives[at as int] != Life::Fresh
            &&& pre.place(at) >= pre.place(pre.tail)
            &&& repair == Repair::Helper ==> at == origin && cur.nodes[at as int].next.is_some()
        },
        PushState::Help { node, origin, next } => {
            &&& node == id
            &&& cur.lives[id as int] == Life::Fresh
            &&& cur.nodes[id as int].item == Some(item)
            &&& origin == cur.tail
            &&& cur.nodes[origin as int].next == Some(next)
            &&& repair == Repair::Helper
        },
        PushState::Swing { node, origin } => {
            &&& node == id
            &&& origin == cur.tail
            &&& cur.lives[id as int] == Life::Linked
        },
        PushState::Count => cur.tail == id,
        PushState::Leave => cur.tail == id,
        PushState::Done => cur.tail == id,
    }
}

/// How many accesses a push that runs alone has left at most.
pub open spec fn push_fuel<T>(cur: Memory<T>, st: PushState) -> int {
    match st {
        PushState::Enter => 4 * cur.distance(cur.tail) + 10,
        PushState::Alloc => 4 * cur.distance(cur.tail) + 9,
        PushState::ReadTail { .. } => 4 * cur.distance(cur.tail) + 8,
        PushState::Link { at, .. } => if cur.distance(at) == 0 {
            4
        } else {
            4 * cur.distance(at) + 7
        },
        PushState::Follow { at, .. } => 4 * cur.distance(at) + 6,
        PushState::Help { origin, .. } => 4 * cur.distance(origin) + 5,
        PushState::Swing { .. } => 3,
        PushState::Count => 2,
        PushState::Leave => 1,
        PushState::Done => 0,
    }
}

/// What `lemma_push_trace_step` assumes.
pub open spec fn push_step_given<T>(
    pre: Memory<T>,
    cur: Memory<T>,
    st: PushState,
    hand: Hand<T>,
    repair: Repair,
    item: T,
) -> bool {
    &&& pre.wf()
    &&& cur.wf()
    &&& cur.perform(hand, push_step(st)).0.wf()
    &&& push_trace(pre, cur, st, hand, repair, item)
}

/// What `lemma_push_trace_step` shows.
pub open spec fn push_step_shown<T>(
    pre: Memory<T>,
    cur: Memory<T>,
    st: PushState,
    hand: Hand<T>,
    repair: Repair,
    item: T,
) -> bool {
    let (next, held, ev) = cur.perform(hand, push_step(st));
    &&& push_trace(pre, next, push_after(st, ev, repair), held, repair, item)
    &&& 0 <= push_fuel(next, push_after(st, ev, repair)) < push_fuel(cur, st)
}

/// A released cell that the push meets at `at` stood at the tail or behind
/// it when the push began.
proof fn lemma_met_released<T>(pre: Memory<T>, cur: Memory<T>, at: usize)
    requires
        pre.wf(),
        pre.valid(at),
        pre.lives[at as int] != Life::Fresh,
        pre.place(at) >= pre.place(pre.tail),
        cur.lives[at as int] == pre.lives[at as int],
        cur.stamps[at as int] == pre.stamps[at as int],
        cur.released == pre.released,
    ensures
        cur.life(at) == Life::Freed ==> pre.lagging(),
{
    pre.lemma_placed(at);
}

/// The steps of a push up to the reading of the tail.
#[verifier::rlimit(40)]
proof fn lemma_push_step_enter<T>(
    pre: Memory<T>,
    cur: Memory<T>,
    st: PushState,
    hand: Hand<T>,
    repair: Repair,
    item: T,
)
    requires
        push_step_given(pre, cur, st, hand, repair, item),
        st is Enter || st is Alloc || st is ReadTail,
    ensures
        push_step_shown(pre, cur, st, hand, repair, item),
{
    pre.lemma_sizes();
    cur.lemma_sizes();
    cur.lemma_placed(cur.tail);
}

/// The link attempt of a push.
#[verifier::rlimit(40)]
proof fn lemma_push_step_link<T>(
    pre: Memory<T>,
    cur: Memory<T>,
    st: PushState,
    hand: Hand<T>,
    repair: Repair,
    item: T,
)
    requires
        push_step_given(pre, cur, st, hand, repair, item),
        st is Link,
    ensures
        push_step_shown(pre, cur, st, hand, repair, item),
{
    let (next, held, ev) = cur.perform(hand, push_step(st));
    let id = pre.nodes.len() as usize;
    pre.lemma_sizes();
    cur.lemma_sizes();
    if let PushState::Link { node, origin, at } = st {
        lemma_met_released(pre, cur, at);
        pre.lemma_placed(at);
        cur.lemma_placed(at);
        if cur.nodes[at as int].next.is_none() {
            assert(next.nodes =~= push_nodes(pre, push_after(st, ev, repair), item));
            assert(next.lives =~= pre.lives.push(Life::Linked));
            pre.lemma_fresh(id);
            assert(next.fresh =~= pre.fresh);
        }
    }
}

/// The step of a push from a cell to its successor.
proof fn lemma_push_step_follow<T>(
    pre: Memory<T>,
    cur: Memory<T>,
    st: PushState,
    hand: Hand<T>,
    repair: Repair,
    item: T,
)
    requires
        push_step_given(pre, cur, st, hand, repair, item),
        st is Follow,
    ensures
        push_step_shown(pre, cur, st, hand, repair, item),
{
    pre.lemma_sizes();
    cur.lemma_sizes();
    if let PushState::Follow { node, origin, at } = st {
        lemma_met_released(pre, cur, at);
        pre.lemma_placed(at);
        cur.lemma_placed(at);
        if let Some(n) = cur.nodes[at as int].next {
            cur.lemma_succ(at, n);
            cur.lemma_placed(n);
        }
    }
}

/// The helping swing of a push.
proof fn lemma_push_step_help<T>(
    pre: Memory<T>,
    cur: Memory<T>,
    st: PushState,
    hand: Hand<T>,
    repair: Repair,
    item: T,
)
    requires
        push_step_given(pre, cur, st, hand, repair, item),
        st is Help,
    ensures
        push_step_shown(pre, cur, st, hand, repair, item),
{
    pre.lemma_sizes();
    cur.lemma_sizes();
    if let PushState::Help { node, origin, next: n } = st {
        cur.lemma_succ(origin, n);
        cur.lemma_placed(n);
        cur.lemma_placed(origin);
    }
}

/// The steps of a push behind its link.
proof fn lemma_push_step_leave<T>(
    pre: Memory<T>,
    cur: Memory<T>,
    st: PushState,
    hand: Hand<T>,
    repair: Repair,
    item: T,
)
    requires
        push_step_given(pre, cur, st, hand, repair, item),
        st is Swing || st is Count || st is Leave,
    ensures
        push_step_shown(pre, cur, st, hand, repair, item),
{
    pre.lemma_sizes();
    cur.lemma_sizes();
    if st is Leave {
        let g = pre.guards.len() as usize;
        assert(cur.guards.update(g as int, None) =~= pre.guards.push(None));
        lemma_first_open(pre.guards, 0);
        lemma_first_open_push(pre.guards, 0);
    }
}

/// One access of a push that runs alone keeps what `push_trace` says and
/// uses up fuel.
pub proof fn lemma_push_trace_step<T>(
    pre: Memory<T>,
    cur: Memory<T>,
    st: PushState,
    hand: Hand<T>,
    repair: Repair,
    item: T,
)
    requires
        push_step_given(pre, cur, st, hand, repair, item),
        !(st is Done),
    ensures
        push_step_shown(pre, cur, st, hand, repair, item),
{
    match st {
        PushState::Enter | PushState::Alloc | PushState::ReadTail { .. } => {
            lemma_push_step_enter(pre, cur, st, hand, repair, item);
        },
        PushState::Link { .. } => {
            lemma_push_step_link(pre, cur, st, hand, repair, item);
        },
        PushState::Follow { .. } => {
            lemma_push_step_follow(pre, cur, st, hand, repair, item);
        },
        PushState::Help { .. } => {
            lemma_push_step_help(pre, cur, st, hand, repair, item);
        },
        _ => {
            lemma_push_step_leave(pre, cur, st, hand, repair, item);
        },
    }
}

/// A push that ran alone to its end did what `pushed` says.
pub proof fn lemma_push_done<T>(
    pre: Memory<T>,
    cur: Memory<T>,
    hand: Hand<T>,
    repair: Repair,
    item: T,
)
    requires
        pre.wf(),
        push_trace(pre, cur, PushState::Done, hand, repair, item),
    ensures
        cur == push_alone(pre, item),
        pushed(pre, cur, item),
{
    pre.lemma_sizes();
    assert(cur.queue() =~= pre.queue().push(item));
}

/// Runs one push of `item` on `arena` from its first access to its last.
pub fn run_push<T>(arena: &mut Arena<T>, item: T, repair: Repair)
    requires
        old(arena).wf(),
    ensures
        final(arena).wf(),
        final(arena)@ == push_alone(old(arena)@, item),
        pushed(old(arena)@, final(arena)@, item),
{
    let ghost pre = arena@;
    let mut op = PushOp::new(item, repair);
    proof {
        arena.lemma_wf();
        pre.lemma_sizes();
        pre.lemma_placed(pre.tail);
    }
    while !op.done()
        invariant
            arena.wf(),
            pre.wf(),
            op.repair == repair,
            push_trace(pre, arena@, op.state, op.hand, repair, item),
        decreases push_fuel(arena@, op.state),
    {
        let ghost cur = arena@;
        let ghost st = op.state;
        let ghost hand = op.hand;
        proof {
            arena.lemma_wf();
        }
        op.step(arena);
        proof {
            arena.lemma_wf();
            lemma_push_trace_step(pre, cur, st, hand, repair, item);
        }
    }
    proof {
        lemma_push_done(pre, arena@, op.hand, repair, item);
    }
}

} // verus!
