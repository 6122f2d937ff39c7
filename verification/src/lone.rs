//! Where the queue is safe without any reclamation scheme: one consumer
//! beside one producer.
//!
//! A pop meets a released cell only if another pop retired it meanwhile,
//! and a push only if it starts from a tail that lags behind the end of the
//! chain, which takes another push. So with a single consumer no pop meets
//! one, and with a single producer no push does, whatever the reclamation
//! policy.

use crate::laws::{law_access_only_adds, law_life_advances, Access};
use crate::memory::{Hand, Memory};
use crate::node::Life;
use crate::protocol::{
    pop_after, pop_step, push_after, push_step, Action, PopState, PushState, Reclaim, Repair,
};
use crate::world::{over, Task, World};
use vstd::prelude::*;

verus! {

/// Whether every retired cell stands in front of the cell `head` in the
/// chain.
pub open spec fn retired_in_front<T>(m: Memory<T>, head: usize) -> bool {
    forall|id: usize|
        m.valid(id) && (#[trigger] m.lives[id as int]) == Life::Retired ==> m.place(id) < m.place(
            head,
        )
}

/// What keeps a pop in state `st` clear of retired cells: no cell that it is
/// going to access is retired.
pub open spec fn pop_clear<T>(m: Memory<T>, st: PopState) -> bool {
    match st {
        PopState::ReadNext { head } => {
            &&& m.valid(head)
            &&& m.lives[head as int] != Life::Fresh
            &&& retired_in_front(m, head)
        },
        PopState::Advance { head, next } | PopState::Take { head, next } => {
            &&& m.valid(next)
            &&& m.lives[next as int] != Life::Retired
        },
        _ => true,
    }
}

/// An access of a pop that is clear of retired cells records no hazard and
/// leaves the pop clear of them.
pub proof fn law_lone_consumer_meets_no_released_cell<T>(
    m: Memory<T>,
    st: PopState,
    hand: Hand<T>,
)
    requires
        m.wf(),
        pop_clear(m, st),
        m.perform(hand, pop_step(st)).0.wf(),
    ensures
        ({
            let (next, held, ev) = m.perform(hand, pop_step(st));
            &&& next.hazard == m.hazard
            &&& pop_clear(next, pop_after(st, ev))
        }),
{
    m.lemma_sizes();
    match st {
        PopState::ReadHead => {
            m.lemma_front();
            assert forall|id: usize|
                m.valid(id) && (#[trigger] m.lives[id as int]) == Life::Retired implies m.place(id)
                < m.place(m.head) by {
                let k = m.lemma_place(id);
                m.lemma_place_of(k);
                m.lemma_place_of(m.claimed as int);
            }
        },
        PopState::ReadNext { head } => {
            m.lemma_placed(head);
            m.lemma_recorded(head);
            match m.nodes[head as int].next {
                Some(n) => {
                    m.lemma_succ(head, n);
                },
                None => {},
            }
        },
        PopState::Advance { head, next: n } => {},
        PopState::Take { head, next: n } => {
            m.lemma_recorded(n);
        },
        _ => {},
    }
}

/// No access that retires nothing ends a pop's being clear of retired
/// cells: only another pop could.
pub proof fn law_lone_consumer_stays_clear<T>(m: Memory<T>, st: PopState, other: Access<T>)
    requires
        m.wf(),
        m.perform(other.hand, other.action).0.wf(),
        pop_clear(m, st),
        !(other.action is Retire),
    ensures
        pop_clear(m.perform(other.hand, other.action).0, st),
{
    let next = m.perform(other.hand, other.action).0;
    m.lemma_sizes();
    next.lemma_sizes();
    law_access_only_adds(m, other.hand, other.action);
    match st {
        PopState::ReadNext { head } => {
            law_life_advances(m, other.hand, other.action, head);
            m.lemma_recorded(head);
            next.lemma_recorded(head);
            m.lemma_same_place(next, head);
            assert forall|id: usize|
                next.valid(id) && (#[trigger] next.lives[id as int])
                    == Life::Retired implies next.place(id) < next.place(head) by {
                lemma_retired_before(m, other.hand, other.action, id);
                m.lemma_same_place(next, id);
            }
        },
        PopState::Advance { head, next: n } | PopState::Take { head, next: n } => {
            if next.lives[n as int] == Life::Retired {
                lemma_retired_before(m, other.hand, other.action, n);
            }
        },
        _ => {},
    }
}

/// What keeps a push in state `st` clear of a lagging tail: the tail is
/// the last cell of the chain, and so is the cell it is going to access.
pub open spec fn push_clear<T>(m: Memory<T>, st: PushState) -> bool {
    match st {
        PushState::Enter | PushState::Alloc => m.tail == m.chain.last(),
        PushState::ReadTail { node } => {
            &&& m.tail == m.chain.last()
            &&& m.valid(node)
            &&& m.lives[node as int] == Life::Fresh
        },
        PushState::Link { node, origin, at } => {
            &&& m.tail == m.chain.last()
            &&& at == m.tail
            &&& origin == m.tail
            &&& m.valid(node)
            &&& m.lives[node as int] == Life::Fresh
        },
        PushState::Follow { .. } | PushState::Help { .. } => false,
        PushState::Swing { node, origin } => {
            &&& m.tail == origin
            &&& m.chain.last() == node
            &&& m.valid(node)
            &&& m.lives[node as int] != Life::Fresh
        },
        PushState::Count | PushState::Leave | PushState::Done => m.tail == m.chain.last(),
    }
}

/// An access of a push that is clear of a lagging tail records no hazard
/// and leaves the push clear of one: its link takes effect at the first
/// attempt, and so does its swing of the tail.
pub proof fn law_lone_producer_meets_no_released_cell<T>(
    m: Memory<T>,
    st: PushState,
    hand: Hand<T>,
    repair: Repair,
)
    requires
        m.wf(),
        push_clear(m, st),
        m.perform(hand, push_step(st)).0.wf(),
    ensures
        ({
            let (next, held, ev) = m.perform(hand, push_step(st));
            &&& next.hazard == m.hazard
            &&& push_clear(next, push_after(st, ev, repair))
        }),
{
    m.lemma_sizes();
    match st {
        PushState::Alloc => {},
        PushState::ReadTail { node } => {},
        PushState::Link { node, origin, at } => {
            m.lemma_last(at);
            m.lemma_recorded(at);
        },
        PushState::Swing { node, origin } => {},
        _ => {},
    }
}

/// No access that neither links a cell nor moves the tail ends a push's
/// being clear of a lagging tail: only another push could.
pub proof fn law_lone_producer_stays_clear<T>(m: Memory<T>, st: PushState, other: Access<T>)
    requires
        m.wf(),
        m.perform(other.hand, other.action).0.wf(),
        push_clear(m, st),
        !(other.action is CasNext),
        !(other.action is CasTail),
    ensures
        push_clear(m.perform(other.hand, other.action).0, st),
{
    m.lemma_sizes();
    match st {
        PushState::Link { node, .. } | PushState::ReadTail { node } => {
            match other.action {
                Action::Alloc => {},
                Action::CasHead { from, to } => {
                    m.lemma_front();
                },
                _ => {},
            }
        },
        PushState::Swing { node, .. } => {
            m.lemma_keep_known(other.hand, other.action, node);
        },
        _ => {},
    }
}

/// A cell that is retired after an access that retires nothing was retired
/// before.
proof fn lemma_retired_before<T>(m: Memory<T>, hand: Hand<T>, action: Action, id: usize)
    requires
        m.wf(),
        !(action is Retire),
        m.perform(hand, action).0.valid(id),
        m.perform(hand, action).0.lives[id as int] == Life::Retired,
    ensures
        m.valid(id),
        m.lives[id as int] == Life::Retired,
{
    m.lemma_sizes();
}

/// Whether at most one push and at most one pop are in flight, and each is
/// clear: the pop of retired cells, the push of a lagging tail.
pub open spec fn lone<T>(w: World<T>) -> bool {
    &&& forall|i: int, j: int|
        0 <= i < w.ops.len() && 0 <= j < w.ops.len() && i != j && ((
        #[trigger] w.ops[i]).task is Push <==> (#[trigger] w.ops[j]).task is Push) ==> over(
            w.ops[i],
        ) || over(w.ops[j])
    &&& forall|i: int| 0 <= i < w.ops.len() && !over(w.ops[i]) ==> #[trigger] clear(w, i)
    &&& (forall|i: int| 0 <= i < w.ops.len() && (#[trigger] w.ops[i]).task is Push ==> over(w.ops[i]))
        ==> w.mem.tidy()
}

/// Whether the operation `i` is clear.
pub open spec fn clear<T>(w: World<T>, i: int) -> bool {
    match w.ops[i].task {
        Task::Push { push, .. } => push_clear(w.mem, push),
        Task::Pop { pop } => pop_clear(w.mem, pop),
    }
}

/// With one producer and one consumer no operation meets a released cell,
/// whatever the reclamation policy: a step of either leaves both clear and
/// records no hazard.
#[verifier::rlimit(40)]
pub proof fn law_lone_step<T>(w: World<T>, i: int)
    requires
        w.inv(),
        lone(w),
        w.can_step(i),
    ensures
        lone(w.step(i)),
        w.step(i).mem.hazard == w.mem.hazard,
{
    let next = w.step(i);
    let op = w.ops[i];
    let m = w.mem;
    w.lemma_step_memory(i);
    m.lemma_sizes();
    if over(op) {
        assert(next.ops =~= w.ops);
    } else {
        assert(clear(w, i));
        match op.task {
            Task::Push { push, repair } => {
                law_lone_producer_meets_no_released_cell(m, push, op.hand, repair);
            },
            Task::Pop { pop } => {
                law_lone_consumer_meets_no_released_cell(m, pop, op.hand);
                lemma_pop_keeps_ends(m, op.hand, pop);
            },
        }
        assert forall|j: int| 0 <= j < next.ops.len() && !over(next.ops[j]) implies #[trigger] clear(
            next,
            j,
        ) by {
            if j != i {
                assert(clear(w, j));
                let other = Access { hand: op.hand, action: w.access(i) };
                match w.ops[j].task {
                    Task::Push { push, .. } => {
                        law_lone_producer_stays_clear(m, push, other);
                    },
                    Task::Pop { pop } => {
                        law_lone_consumer_stays_clear(m, pop, other);
                    },
                }
            }
        }
        assert forall|a: int, b: int|
            0 <= a < next.ops.len() && 0 <= b < next.ops.len() && a != b && ((
            #[trigger] next.ops[a]).task is Push <==> (#[trigger] next.ops[b]).task is Push) implies over(
            next.ops[a],
        ) || over(next.ops[b]) by {}
        if forall|k: int| 0 <= k < next.ops.len() && (#[trigger] next.ops[k]).task is Push ==> over(
            next.ops[k],
        ) {
            match op.task {
                Task::Push { push, repair } => {
                    assert(over(next.ops[i]));
                },
                Task::Pop { pop } => {
                    assert forall|k: int| 0 <= k < w.ops.len() && (#[trigger] w.ops[k]).task
                        is Push implies over(w.ops[k]) by {}
                },
            }
        }
    }
}

/// Beginning a push while no other is in flight, or a pop while no other is
/// in flight, leaves the world with one producer and one consumer.
pub proof fn law_lone_begin<T>(w: World<T>, item: T, repair: Repair)
    requires
        w.inv(),
        lone(w),
    ensures
        (forall|i: int| 0 <= i < w.ops.len() && (#[trigger] w.ops[i]).task is Push ==> over(w.ops[i]))
            ==> lone(w.begin_push(item, repair)),
        (forall|i: int| 0 <= i < w.ops.len() && (#[trigger] w.ops[i]).task is Pop ==> over(w.ops[i]))
            ==> lone(w.begin_pop()),
{
    if forall|i: int| 0 <= i < w.ops.len() && (#[trigger] w.ops[i]).task is Push ==> over(w.ops[i]) {
        let a = w.begin_push(item, repair);
        assert forall|i: int| 0 <= i < a.ops.len() && !over(a.ops[i]) implies #[trigger] clear(
            a,
            i,
        ) by {
            if i < w.ops.len() {
                assert(clear(w, i));
            }
        }
        assert forall|i: int, j: int|
            0 <= i < a.ops.len() && 0 <= j < a.ops.len() && i != j && ((#[trigger] a.ops[i]).task
                is Push <==> (#[trigger] a.ops[j]).task is Push) implies over(a.ops[i]) || over(
            a.ops[j],
        ) by {}
    }
    if forall|i: int| 0 <= i < w.ops.len() && (#[trigger] w.ops[i]).task is Pop ==> over(w.ops[i]) {
        let b = w.begin_pop();
        assert forall|i: int| 0 <= i < b.ops.len() && !over(b.ops[i]) implies #[trigger] clear(
            b,
            i,
        ) by {
            if i < w.ops.len() {
                assert(clear(w, i));
            }
        }
        assert forall|i: int, j: int|
            0 <= i < b.ops.len() && 0 <= j < b.ops.len() && i != j && ((#[trigger] b.ops[i]).task
                is Push <==> (#[trigger] b.ops[j]).task is Push) implies over(b.ops[i]) || over(
            b.ops[j],
        ) by {}
        if forall|k: int| 0 <= k < b.ops.len() && (#[trigger] b.ops[k]).task is Push ==> over(
            b.ops[k],
        ) {
            assert forall|k: int| 0 <= k < w.ops.len() && (#[trigger] w.ops[k]).task
                is Push implies over(w.ops[k]) by {
                assert(b.ops[k] == w.ops[k]);
            }
        }
    }
}

/// A new world has one producer and one consumer at most: none.
pub proof fn law_lone_init<T>(policy: Reclaim)
    ensures
        lone(World::<T>::init(policy)),
{
}

/// No access of a pop moves the tail or lengthens the chain.
proof fn lemma_pop_keeps_ends<T>(m: Memory<T>, hand: Hand<T>, st: PopState)
    ensures
        m.perform(hand, pop_step(st)).0.tail == m.tail,
        m.perform(hand, pop_step(st)).0.chain == m.chain,
{
}

} // verus!
