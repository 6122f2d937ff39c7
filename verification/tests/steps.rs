use l3queue::arena::Arena;
use l3queue::crs_queue::CrsQueue;
use l3queue::engine::{PopOp, PushOp};
use l3queue::he_queue::HeQueue;
use l3queue::lock_queue::LockQueue;
use l3queue::lq::LinkedQueue;
use l3queue::memory::Hand;
use l3queue::node::{Life, Node};
use l3queue::solo::{run_pop, run_push};
use l3queue::protocol::{
    pop_action, pop_next, push_action, push_next, strength, Action, Event, MemOrder, PopState,
    PushState, Reclaim, Repair,
};

/// A bare memory with a push flavor: operations are begun on it and stepped
/// one access at a time.
struct Bench<T> {
    arena: Arena<T>,
    repair: Repair,
}

#[allow(dead_code)]
impl<T> Bench<T> {
    /// Deferred reclamation, walking pushes.
    fn crs() -> Self {
        Bench { arena: Arena::new(Reclaim::Deferred), repair: Repair::LocalWalk }
    }

    /// Deferred reclamation, helping pushes.
    fn he() -> Self {
        Bench { arena: Arena::new(Reclaim::Deferred), repair: Repair::Helper }
    }

    /// No reclamation scheme, walking pushes.
    fn lq() -> Self {
        Bench { arena: Arena::new(Reclaim::Immediate), repair: Repair::LocalWalk }
    }

    fn begin_push(&self, v: T) -> PushOp<T> {
        PushOp::new(v, self.repair)
    }

    fn begin_pop(&self) -> PopOp<T> {
        PopOp::new()
    }

    fn step_push(&mut self, op: &mut PushOp<T>) -> Event {
        op.step(&mut self.arena)
    }

    fn step_pop(&mut self, op: &mut PopOp<T>) -> Event {
        op.step(&mut self.arena)
    }

    fn push(&mut self, v: T) {
        run_push(&mut self.arena, v, self.repair)
    }

    fn pop(&mut self) -> Option<T> {
        run_pop(&mut self.arena)
    }

    fn size(&self) -> usize {
        self.arena.size()
    }

    fn is_empty(&self) -> bool {
        self.arena.is_empty()
    }

    fn walk(&self) -> Vec<usize> {
        self.arena.walk()
    }

    fn life(&self, cell: usize) -> Option<Life> {
        self.arena.life(cell)
    }

    fn hazard(&self) -> bool {
        self.arena.hazard()
    }

    fn misuse(&self) -> bool {
        self.arena.misuse()
    }
}

#[test]
fn node_new_carries_its_item() {
    let n = Node::new(7u8);
    assert_eq!(n.item, Some(7));
    assert_eq!(n.next, None);
}

#[test]
fn node_new_empty_is_a_sentinel() {
    let n: Node<u8> = Node::new_empty();
    assert_eq!(n.item, None);
    assert_eq!(n.next, None);
}

#[test]
fn every_queue_starts_empty() {
    let mut a: CrsQueue<u32> = CrsQueue::new();
    assert_eq!(a.pop(), None);
    assert!(a.is_empty());
    assert_eq!(a.size(), 0);
    let mut b: HeQueue<u32> = HeQueue::new();
    assert_eq!(b.pop(), None);
    assert!(b.is_empty());
    assert_eq!(b.size(), 0);
    let mut c: LinkedQueue<u32> = LinkedQueue::new();
    assert_eq!(c.pop(), None);
    assert!(c.is_empty());
    assert_eq!(c.size(), 0);
    let mut d: LockQueue<u32> = LockQueue::new();
    assert_eq!(d.pop(), None);
    assert!(d.is_empty());
    assert_eq!(d.size(), 0);
}

#[test]
fn default_queues_are_empty() {
    let mut a: CrsQueue<u32> = Default::default();
    assert_eq!(a.pop(), None);
    let mut b: HeQueue<u32> = Default::default();
    assert_eq!(b.pop(), None);
    let mut c: LinkedQueue<u32> = Default::default();
    assert_eq!(c.pop(), None);
    let mut d: LockQueue<u32> = Default::default();
    assert_eq!(d.pop(), None);
}

#[test]
fn size_follows_pushes_and_pops() {
    let mut q = HeQueue::new();
    for i in 0..5u32 {
        q.push(i);
        assert_eq!(q.size(), (i + 1) as usize);
        assert!(!q.is_empty());
    }
    for i in 0..5u32 {
        assert_eq!(q.pop(), Some(i));
        assert_eq!(q.size(), (4 - i) as usize);
    }
    assert!(q.is_empty());
    assert_eq!(q.pop(), None);
    assert_eq!(q.size(), 0);
}

#[test]
fn lock_queue_size_follows_pushes_and_pops() {
    let mut q = LockQueue::new();
    q.push('a');
    q.push('b');
    assert_eq!(q.size(), 2);
    assert!(!q.is_empty());
    assert_eq!(q.pop(), Some('a'));
    assert_eq!(q.size(), 1);
    assert_eq!(q.pop(), Some('b'));
    assert_eq!(q.pop(), None);
    assert_eq!(q.size(), 0);
}

#[test]
fn walk_lists_the_cells_from_the_sentinel() {
    let mut q = CrsQueue::new();
    assert_eq!(q.walk(), vec![0]);
    q.push(10);
    q.push(20);
    q.push(30);
    assert_eq!(q.walk(), vec![0, 1, 2, 3]);
    assert_eq!(q.pop(), Some(10));
    assert_eq!(q.walk(), vec![1, 2, 3]);
    assert_eq!(q.walk().len() - 1, q.size());
    let mut h = HeQueue::new();
    h.push(1);
    assert_eq!(h.walk(), vec![0, 1]);
}

#[test]
fn push_machine_follows_its_table() {
    let lw = Repair::LocalWalk;
    let he = Repair::Helper;
    assert_eq!(push_action(PushState::Enter), Action::Pin);
    assert_eq!(push_next(PushState::Enter, Event::Unit, lw), PushState::Alloc);
    assert_eq!(push_action(PushState::Alloc), Action::Alloc);
    assert_eq!(
        push_next(PushState::Alloc, Event::Ptr(Some(4)), lw),
        PushState::ReadTail { node: 4 }
    );
    assert_eq!(push_next(PushState::Alloc, Event::Ptr(None), lw), PushState::Leave);
    assert_eq!(push_action(PushState::ReadTail { node: 4 }), Action::LoadTail);
    assert_eq!(
        push_next(PushState::ReadTail { node: 4 }, Event::Ptr(Some(2)), he),
        PushState::Link { node: 4, origin: 2, at: 2 }
    );
    let link = PushState::Link { node: 4, origin: 2, at: 3 };
    assert_eq!(push_action(link), Action::CasNext { at: 3, new: 4 });
    assert_eq!(push_next(link, Event::Cas(true), lw), PushState::Swing { node: 4, origin: 2 });
    assert_eq!(
        push_next(link, Event::Cas(false), lw),
        PushState::Follow { node: 4, origin: 2, at: 3 }
    );
    assert_eq!(push_next(link, Event::Unit, lw), link);
    let follow = PushState::Follow { node: 4, origin: 2, at: 2 };
    assert_eq!(push_action(follow), Action::LoadNext { at: 2 });
    assert_eq!(
        push_next(follow, Event::Ptr(Some(3)), lw),
        PushState::Follow { node: 4, origin: 2, at: 3 }
    );
    assert_eq!(
        push_next(follow, Event::Ptr(None), lw),
        PushState::Link { node: 4, origin: 2, at: 2 }
    );
    assert_eq!(
        push_next(follow, Event::Ptr(Some(3)), he),
        PushState::Help { node: 4, origin: 2, next: 3 }
    );
    assert_eq!(push_next(follow, Event::Ptr(None), he), PushState::ReadTail { node: 4 });
    let help = PushState::Help { node: 4, origin: 2, next: 3 };
    assert_eq!(push_action(help), Action::CasTail { from: 2, to: 3 });
    assert_eq!(push_next(help, Event::Cas(false), he), PushState::ReadTail { node: 4 });
    let swing = PushState::Swing { node: 4, origin: 2 };
    assert_eq!(push_action(swing), Action::CasTail { from: 2, to: 4 });
    assert_eq!(push_next(swing, Event::Cas(false), lw), PushState::Count);
    assert_eq!(push_action(PushState::Count), Action::AddLen);
    assert_eq!(push_next(PushState::Count, Event::Unit, lw), PushState::Leave);
    assert_eq!(push_action(PushState::Leave), Action::Unpin);
    assert_eq!(push_next(PushState::Leave, Event::Unit, lw), PushState::Done);
    assert_eq!(push_action(PushState::Done), Action::Finish);
    assert_eq!(push_next(PushState::Done, Event::Unit, lw), PushState::Done);
}

#[test]
fn pop_machine_follows_its_table() {
    assert_eq!(pop_action(PopState::Probe), Action::LoadLen);
    assert_eq!(pop_next(PopState::Probe, Event::Len(0)), PopState::Done { got: false });
    assert_eq!(pop_next(PopState::Probe, Event::Len(3)), PopState::Enter);
    assert_eq!(pop_next(PopState::Probe, Event::Unit), PopState::Probe);
    assert_eq!(pop_action(PopState::Enter), Action::Pin);
    assert_eq!(pop_next(PopState::Enter, Event::Unit), PopState::ReadHead);
    assert_eq!(pop_action(PopState::ReadHead), Action::LoadHead);
    assert_eq!(pop_next(PopState::ReadHead, Event::Ptr(Some(5))), PopState::ReadNext { head: 5 });
    assert_eq!(pop_action(PopState::ReadNext { head: 5 }), Action::LoadNext { at: 5 });
    assert_eq!(
        pop_next(PopState::ReadNext { head: 5 }, Event::Ptr(None)),
        PopState::Leave { got: false }
    );
    assert_eq!(
        pop_next(PopState::ReadNext { head: 5 }, Event::Ptr(Some(6))),
        PopState::Advance { head: 5, next: 6 }
    );
    let adv = PopState::Advance { head: 5, next: 6 };
    assert_eq!(pop_action(adv), Action::CasHead { from: 5, to: 6 });
    assert_eq!(pop_next(adv, Event::Cas(true)), PopState::Take { head: 5, next: 6 });
    assert_eq!(pop_next(adv, Event::Cas(false)), PopState::ReadHead);
    let take = PopState::Take { head: 5, next: 6 };
    assert_eq!(pop_action(take), Action::TakeItem { at: 6 });
    assert_eq!(pop_next(take, Event::Unit), PopState::Retire { head: 5 });
    assert_eq!(pop_action(PopState::Retire { head: 5 }), Action::Retire { at: 5 });
    assert_eq!(pop_next(PopState::Retire { head: 5 }, Event::Unit), PopState::Count);
    assert_eq!(pop_action(PopState::Count), Action::SubLen);
    assert_eq!(pop_next(PopState::Count, Event::Unit), PopState::Leave { got: true });
    assert_eq!(pop_action(PopState::Leave { got: true }), Action::Unpin);
    assert_eq!(pop_next(PopState::Leave { got: true }, Event::Unit), PopState::Done { got: true });
    assert_eq!(pop_action(PopState::Done { got: false }), Action::Finish);
    assert_eq!(
        pop_next(PopState::Done { got: false }, Event::Unit),
        PopState::Done { got: false }
    );
}

#[test]
fn arena_answers_each_access() {
    let mut a: Arena<u32> = Arena::new(Reclaim::Deferred);
    let mut hand = Hand { item: Some(9), guard: None };
    assert_eq!(a.perform(&mut hand, Action::LoadLen), Event::Len(0));
    assert_eq!(a.perform(&mut hand, Action::LoadHead), Event::Ptr(Some(0)));
    assert_eq!(a.perform(&mut hand, Action::LoadTail), Event::Ptr(Some(0)));
    assert_eq!(a.perform(&mut hand, Action::LoadNext { at: 0 }), Event::Ptr(None));
    assert_eq!(a.perform(&mut hand, Action::Pin), Event::Unit);
    assert_eq!(hand.guard, Some(0));
    assert_eq!(a.perform(&mut hand, Action::Alloc), Event::Ptr(Some(1)));
    assert_eq!(hand.item, None);
    assert_eq!(a.life(1), Some(Life::Fresh));
    assert_eq!(a.perform(&mut hand, Action::CasNext { at: 0, new: 1 }), Event::Cas(true));
    assert_eq!(a.life(1), Some(Life::Linked));
    assert_eq!(a.perform(&mut hand, Action::LoadNext { at: 0 }), Event::Ptr(Some(1)));
    assert_eq!(a.perform(&mut hand, Action::CasTail { from: 5, to: 1 }), Event::Cas(false));
    assert_eq!(a.perform(&mut hand, Action::CasTail { from: 0, to: 1 }), Event::Cas(true));
    assert_eq!(a.perform(&mut hand, Action::LoadTail), Event::Ptr(Some(1)));
    assert_eq!(a.perform(&mut hand, Action::AddLen), Event::Unit);
    assert_eq!(a.size(), 1);
    assert_eq!(a.perform(&mut hand, Action::CasHead { from: 1, to: 0 }), Event::Cas(false));
    assert_eq!(a.perform(&mut hand, Action::CasHead { from: 0, to: 1 }), Event::Cas(true));
    assert_eq!(a.life(0), Some(Life::Detached));
    assert_eq!(a.perform(&mut hand, Action::TakeItem { at: 1 }), Event::Unit);
    assert_eq!(hand.item, Some(9));
    assert_eq!(a.perform(&mut hand, Action::Retire { at: 0 }), Event::Unit);
    assert_eq!(a.life(0), Some(Life::Retired));
    assert_eq!(a.perform(&mut hand, Action::SubLen), Event::Unit);
    assert_eq!(a.size(), 0);
    assert!(a.is_empty());
    assert_eq!(a.perform(&mut hand, Action::Unpin), Event::Unit);
    assert_eq!(hand.guard, None);
    assert_eq!(a.life(0), Some(Life::Freed));
    assert_eq!(a.perform(&mut hand, Action::Finish), Event::Unit);
    assert_eq!(a.life(2), None);
    assert_eq!(a.walk(), vec![1]);
    assert!(!a.hazard());
    assert!(!a.misuse());
}

#[test]
fn arena_refuses_what_no_algorithm_does() {
    let mut a: Arena<u32> = Arena::new(Reclaim::Immediate);
    let mut hand = Hand { item: None, guard: None };
    assert!(!a.misuse());
    // nothing to allocate for
    assert_eq!(a.perform(&mut hand, Action::Alloc), Event::Ptr(None));
    assert!(a.misuse());
    let mut b: Arena<u32> = Arena::new(Reclaim::Immediate);
    // no such cell
    assert_eq!(b.perform(&mut hand, Action::LoadNext { at: 7 }), Event::Ptr(None));
    assert!(b.misuse());
    let mut c: Arena<u32> = Arena::new(Reclaim::Immediate);
    // the sentinel is linked already
    assert_eq!(c.perform(&mut hand, Action::CasNext { at: 0, new: 0 }), Event::Cas(false));
    assert!(c.misuse());
    let mut d: Arena<u32> = Arena::new(Reclaim::Immediate);
    // no guard to close
    assert_eq!(d.perform(&mut hand, Action::Unpin), Event::Unit);
    assert!(d.misuse());
    let mut e: Arena<u32> = Arena::new(Reclaim::Immediate);
    // the sentinel is not detached
    assert_eq!(e.perform(&mut hand, Action::Retire { at: 0 }), Event::Unit);
    assert!(e.misuse());
    assert_eq!(e.life(0), Some(Life::Linked));
    let mut f: Arena<u32> = Arena::new(Reclaim::Immediate);
    // the successor of the sentinel is not cell 3
    assert_eq!(f.perform(&mut hand, Action::CasHead { from: 0, to: 3 }), Event::Cas(false));
    assert!(f.misuse());
    let mut g: Arena<u32> = Arena::new(Reclaim::Immediate);
    // the tail cannot point at a cell that was never linked
    assert_eq!(g.perform(&mut hand, Action::CasTail { from: 0, to: 3 }), Event::Cas(false));
    assert!(g.misuse());
    let mut h: Arena<u32> = Arena::new(Reclaim::Immediate);
    let mut pinned = Hand { item: None, guard: Some(0) };
    // a second guard for one operation
    assert_eq!(h.perform(&mut pinned, Action::Pin), Event::Unit);
    assert!(h.misuse());
}

#[test]
fn a_waiting_payload_cannot_be_taken() {
    let mut q = Bench::crs();
    q.push(5u32);
    let mut forged: PopOp<u32> =
        PopOp { state: PopState::Take { head: 0, next: 1 }, hand: Hand { item: None, guard: None } };
    q.step_pop(&mut forged);
    assert!(q.misuse());
    assert_eq!(forged.hand.item, None);
    assert_eq!(q.pop(), Some(5));
}

#[test]
fn a_forged_push_cannot_link_a_linked_cell() {
    let mut q = Bench::he();
    q.push(5u32);
    let mut forged: PushOp<u32> = PushOp {
        state: PushState::Link { node: 1, origin: 1, at: 1 },
        hand: Hand { item: None, guard: None },
        repair: Repair::Helper,
    };
    assert_eq!(q.step_push(&mut forged), Event::Cas(false));
    assert!(q.misuse());
    assert_eq!(q.walk(), vec![0, 1]);
    assert_eq!(q.pop(), Some(5));
    assert_eq!(q.pop(), None);
}

fn finish_push<T>(q: &mut Bench<T>, op: &mut PushOp<T>) {
    while !op.done() {
        q.step_push(op);
    }
}

fn finish_pop<T>(q: &mut Bench<T>, mut op: PopOp<T>) -> Option<T> {
    while !op.done() {
        q.step_pop(&mut op);
    }
    op.into_item()
}

#[test]
fn walking_push_repairs_a_lagging_tail() {
    let mut q = Bench::crs();
    let mut pa = q.begin_push(1u32);
    let mut pb = q.begin_push(2u32);
    for _ in 0..3 {
        q.step_push(&mut pa);
        q.step_push(&mut pb);
    }
    assert_eq!(pa.state, PushState::Link { node: 1, origin: 0, at: 0 });
    assert_eq!(pb.state, PushState::Link { node: 2, origin: 0, at: 0 });
    assert_eq!(q.step_push(&mut pa), Event::Cas(true));
    assert_eq!(pa.state, PushState::Swing { node: 1, origin: 0 });
    // the second link meets the first: walk to the end and link there
    assert_eq!(q.step_push(&mut pb), Event::Cas(false));
    assert_eq!(pb.state, PushState::Follow { node: 2, origin: 0, at: 0 });
    assert_eq!(q.step_push(&mut pb), Event::Ptr(Some(1)));
    assert_eq!(pb.state, PushState::Follow { node: 2, origin: 0, at: 1 });
    assert_eq!(q.step_push(&mut pb), Event::Ptr(None));
    assert_eq!(pb.state, PushState::Link { node: 2, origin: 0, at: 1 });
    assert_eq!(q.step_push(&mut pb), Event::Cas(true));
    // nothing is counted before the link, and nothing yet
    assert_eq!(q.size(), 0);
    // first swing wins, second is tolerated: the tail stays one behind
    assert_eq!(q.step_push(&mut pa), Event::Cas(true));
    assert_eq!(q.step_push(&mut pb), Event::Cas(false));
    finish_push(&mut q, &mut pa);
    finish_push(&mut q, &mut pb);
    assert_eq!(q.size(), 2);
    // a later push starts from the lagging tail and walks
    let mut pc = q.begin_push(3u32);
    for _ in 0..3 {
        q.step_push(&mut pc);
    }
    assert_eq!(pc.state, PushState::Link { node: 3, origin: 1, at: 1 });
    assert_eq!(q.step_push(&mut pc), Event::Cas(false));
    finish_push(&mut q, &mut pc);
    assert_eq!(q.walk(), vec![0, 1, 2, 3]);
    assert_eq!(q.pop(), Some(1));
    assert_eq!(q.pop(), Some(2));
    assert_eq!(q.pop(), Some(3));
    assert_eq!(q.pop(), None);
    assert!(!q.hazard());
    assert!(!q.misuse());
}

#[test]
fn helping_push_swings_the_tail_for_others() {
    let mut q = Bench::he();
    let mut pa = q.begin_push(1u32);
    let mut pb = q.begin_push(2u32);
    for _ in 0..3 {
        q.step_push(&mut pa);
        q.step_push(&mut pb);
    }
    assert_eq!(q.step_push(&mut pa), Event::Cas(true));
    assert_eq!(q.step_push(&mut pb), Event::Cas(false));
    assert_eq!(pb.state, PushState::Follow { node: 2, origin: 0, at: 0 });
    assert_eq!(q.step_push(&mut pb), Event::Ptr(Some(1)));
    assert_eq!(pb.state, PushState::Help { node: 2, origin: 0, next: 1 });
    // the helper swings the tail that the first push has not swung yet
    assert_eq!(q.step_push(&mut pb), Event::Cas(true));
    assert_eq!(pb.state, PushState::ReadTail { node: 2 });
    assert_eq!(q.step_push(&mut pb), Event::Ptr(Some(1)));
    assert_eq!(q.step_push(&mut pb), Event::Cas(true));
    // the first push finds its swing done
    assert_eq!(q.step_push(&mut pa), Event::Cas(false));
    while !pa.done() {
        q.step_push(&mut pa);
    }
    while !pb.done() {
        q.step_push(&mut pb);
    }
    assert_eq!(q.size(), 2);
    assert_eq!(q.pop(), Some(1));
    assert_eq!(q.pop(), Some(2));
    assert_eq!(q.pop(), None);
    assert!(!q.hazard());
    assert!(!q.misuse());
}

#[test]
fn advisory_length_hides_an_uncounted_item() {
    let mut q = Bench::crs();
    let mut p = q.begin_push(7u32);
    while p.state != PushState::Count {
        q.step_push(&mut p);
    }
    // linked, not counted: the length still reads zero and a pop gives up
    assert_eq!(q.walk(), vec![0, 1]);
    assert_eq!(q.size(), 0);
    assert!(q.is_empty());
    assert_eq!(q.pop(), None);
    finish_push(&mut q, &mut p);
    assert_eq!(q.size(), 1);
    assert_eq!(q.pop(), Some(7));
}

#[test]
fn advisory_length_wraps_and_converges() {
    let mut q = Bench::crs();
    q.push(1u32);
    let mut p = q.begin_push(2u32);
    while p.state != PushState::Count {
        q.step_push(&mut p);
    }
    let mut ca = q.begin_pop();
    let mut cb = q.begin_pop();
    assert_eq!(q.step_pop(&mut ca), Event::Len(1));
    assert_eq!(q.step_pop(&mut cb), Event::Len(1));
    assert_eq!(finish_pop(&mut q, ca), Some(1));
    assert_eq!(q.size(), 0);
    assert_eq!(finish_pop(&mut q, cb), Some(2));
    assert_eq!(q.size(), usize::MAX);
    assert!(!q.is_empty());
    finish_push(&mut q, &mut p);
    assert_eq!(q.size(), 0);
    assert!(q.is_empty());
    assert_eq!(q.pop(), None);
}

#[test]
fn a_lost_head_advance_is_retried() {
    let mut q = Bench::crs();
    q.push(1u32);
    q.push(2u32);
    let mut ca = q.begin_pop();
    let mut cb = q.begin_pop();
    for _ in 0..4 {
        q.step_pop(&mut ca);
        q.step_pop(&mut cb);
    }
    assert_eq!(ca.state, PopState::Advance { head: 0, next: 1 });
    assert_eq!(cb.state, PopState::Advance { head: 0, next: 1 });
    assert_eq!(q.step_pop(&mut cb), Event::Cas(true));
    assert_eq!(q.step_pop(&mut ca), Event::Cas(false));
    assert_eq!(ca.state, PopState::ReadHead);
    assert_eq!(finish_pop(&mut q, ca), Some(2));
    assert_eq!(finish_pop(&mut q, cb), Some(1));
    assert_eq!(q.size(), 0);
    assert!(!q.hazard());
}

#[test]
fn a_detached_cell_is_released_when_the_guards_allow() {
    let mut q = Bench::crs();
    q.push(1u32);
    assert_eq!(q.life(0), Some(Life::Linked));
    assert_eq!(q.life(1), Some(Life::Linked));
    assert_eq!(q.life(2), None);
    // a push that opened its guard before the sentinel is detached
    let mut p = q.begin_push(2u32);
    q.step_push(&mut p);
    let mut c = q.begin_pop();
    while c.state != (PopState::Take { head: 0, next: 1 }) {
        q.step_pop(&mut c);
    }
    assert_eq!(q.life(0), Some(Life::Detached));
    q.step_pop(&mut c);
    assert_eq!(c.state, PopState::Retire { head: 0 });
    assert_eq!(q.life(0), Some(Life::Detached));
    q.step_pop(&mut c);
    assert_eq!(q.life(0), Some(Life::Retired));
    assert_eq!(finish_pop(&mut q, c), Some(1));
    // the pop is over, the older guard is still open
    assert_eq!(q.life(0), Some(Life::Retired));
    finish_push(&mut q, &mut p);
    assert_eq!(q.life(0), Some(Life::Freed));
    assert_eq!(q.life(1), Some(Life::Linked));
    assert_eq!(q.pop(), Some(2));
    assert!(!q.hazard());
}

#[test]
fn a_guard_opened_later_does_not_hold_a_cell_back() {
    let mut q = Bench::crs();
    q.push(1u32);
    let mut c = q.begin_pop();
    while c.state != PopState::Count {
        q.step_pop(&mut c);
    }
    assert_eq!(q.life(0), Some(Life::Retired));
    // this push opens its guard after the cell was retired
    let mut p = q.begin_push(2u32);
    q.step_push(&mut p);
    assert_eq!(finish_pop(&mut q, c), Some(1));
    assert_eq!(q.life(0), Some(Life::Freed));
    finish_push(&mut q, &mut p);
    assert!(!q.hazard());
}

#[test]
fn without_reclamation_scheme_a_second_consumer_meets_released_memory() {
    let mut q = Bench::lq();
    q.push(1u32);
    q.push(2u32);
    let mut ca = q.begin_pop();
    for _ in 0..3 {
        q.step_pop(&mut ca);
    }
    assert_eq!(ca.state, PopState::ReadNext { head: 0 });
    // another consumer detaches and releases the sentinel meanwhile
    assert_eq!(q.pop(), Some(1));
    assert_eq!(q.life(0), Some(Life::Freed));
    assert!(!q.hazard());
    q.step_pop(&mut ca);
    assert!(q.hazard());
    while !ca.done() {
        q.step_pop(&mut ca);
    }
    assert_eq!(ca.into_item(), Some(2));
    assert!(!q.misuse());
}

#[test]
fn with_deferred_reclamation_the_same_race_is_safe() {
    let mut q = Bench::crs();
    q.push(1u32);
    q.push(2u32);
    let mut ca = q.begin_pop();
    for _ in 0..3 {
        q.step_pop(&mut ca);
    }
    assert_eq!(ca.state, PopState::ReadNext { head: 0 });
    assert_eq!(q.pop(), Some(1));
    // retired, and kept for the consumer that may still hold it
    assert_eq!(q.life(0), Some(Life::Retired));
    q.step_pop(&mut ca);
    assert!(!q.hazard());
    assert_eq!(finish_pop(&mut q, ca), Some(2));
    assert_eq!(q.life(0), Some(Life::Freed));
    assert!(!q.hazard());
    let mut h = Bench::he();
    h.push(1u32);
    h.push(2u32);
    let mut c = h.begin_pop();
    for _ in 0..3 {
        h.step_pop(&mut c);
    }
    assert_eq!(h.pop(), Some(1));
    assert_eq!(h.life(0), Some(Life::Retired));
    while !c.done() {
        h.step_pop(&mut c);
    }
    assert_eq!(c.into_item(), Some(2));
    assert!(!h.hazard());
}

#[test]
fn without_reclamation_scheme_one_consumer_and_one_producer_are_safe() {
    let mut q = Bench::lq();
    let mut sum = 0u64;
    let mut next = 0u64;
    let mut p: Option<PushOp<u64>> = None;
    let mut c: Option<PopOp<u64>> = None;
    let mut turn = 0u64;
    while next < 500 || p.is_some() || !q.is_empty() || c.is_some() {
        turn = turn.wrapping_mul(6364136223846793005).wrapping_add(1442695040888963407);
        if (turn >> 33) % 2 == 0 {
            if p.is_none() && next < 500 {
                p = Some(q.begin_push(next));
                next += 1;
            }
            let mut over = false;
            if let Some(op) = p.as_mut() {
                q.step_push(op);
                over = op.done();
            }
            if over {
                p = None;
            }
        } else {
            if c.is_none() {
                c = Some(q.begin_pop());
            }
            let mut over = false;
            if let Some(op) = c.as_mut() {
                q.step_pop(op);
                over = op.done();
            }
            if over {
                if let Some(v) = c.take().unwrap().into_item() {
                    sum += v;
                }
            }
        }
    }
    assert_eq!(sum, (0..500).sum());
    assert!(!q.hazard());
    assert!(!q.misuse());
}

#[test]
fn a_push_from_a_released_tail_is_recorded() {
    // two walking pushes leave the tail one behind the end
    let mut q = Bench::crs();
    let mut pa = q.begin_push(1u32);
    let mut pb = q.begin_push(2u32);
    for _ in 0..3 {
        q.step_push(&mut pa);
        q.step_push(&mut pb);
    }
    q.step_push(&mut pa);
    while pb.state != (PushState::Swing { node: 2, origin: 0 }) {
        q.step_push(&mut pb);
    }
    q.step_push(&mut pa);
    finish_push(&mut q, &mut pa);
    finish_push(&mut q, &mut pb);
    // both items are popped: the cell the tail points at is detached,
    // retired and, with no guard open, released
    assert_eq!(q.pop(), Some(1));
    assert_eq!(q.pop(), Some(2));
    assert_eq!(q.life(1), Some(Life::Freed));
    assert!(!q.hazard());
    // the next push starts from it
    q.push(3);
    assert!(q.hazard());
    assert_eq!(q.pop(), Some(3));
    assert_eq!(q.size(), 0);
}

#[test]
fn a_helping_push_from_a_released_tail_is_recorded() {
    let mut q = Bench::he();
    q.push('a');
    // a push links its cell and stalls before it swings the tail
    let mut stalled = q.begin_push('b');
    while stalled.state != (PushState::Swing { node: 2, origin: 1 }) {
        q.step_push(&mut stalled);
    }
    // two pops pass the length check while it reads one
    let mut ca = q.begin_pop();
    let mut cb = q.begin_pop();
    assert_eq!(q.step_pop(&mut ca), Event::Len(1));
    assert_eq!(q.step_pop(&mut cb), Event::Len(1));
    while !ca.done() {
        q.step_pop(&mut ca);
    }
    assert_eq!(ca.into_item(), Some('a'));
    while !cb.done() {
        q.step_pop(&mut cb);
    }
    assert_eq!(cb.into_item(), Some('b'));
    // the head went past the tail: the tail points at a retired cell,
    // which the stalled push's guard still holds back
    assert_eq!(q.life(1), Some(Life::Retired));
    // a new push opens its guard after that cell was retired and reads the tail
    let mut late = q.begin_push('c');
    for _ in 0..3 {
        q.step_push(&mut late);
    }
    assert_eq!(late.state, PushState::Link { node: 3, origin: 1, at: 1 });
    // the stalled push ends: nothing holds the cell back any longer
    while !stalled.done() {
        q.step_push(&mut stalled);
    }
    assert_eq!(q.life(1), Some(Life::Freed));
    assert!(!q.hazard());
    assert_eq!(q.step_push(&mut late), Event::Cas(false));
    assert!(q.hazard());
    while !late.done() {
        q.step_push(&mut late);
    }
    assert_eq!(q.size(), 1);
    assert_eq!(q.pop(), Some('c'));
    assert!(!q.misuse());
}

#[test]
fn every_access_has_its_strength() {
    assert_eq!(strength(Action::LoadLen), MemOrder::SeqCst);
    assert_eq!(strength(Action::AddLen), MemOrder::SeqCst);
    assert_eq!(strength(Action::SubLen), MemOrder::SeqCst);
    assert_eq!(strength(Action::LoadHead), MemOrder::Acquire);
    assert_eq!(strength(Action::LoadTail), MemOrder::Acquire);
    assert_eq!(strength(Action::LoadNext { at: 3 }), MemOrder::Acquire);
    assert_eq!(strength(Action::CasNext { at: 3, new: 4 }), MemOrder::Release);
    assert_eq!(strength(Action::CasTail { from: 3, to: 4 }), MemOrder::Release);
    assert_eq!(strength(Action::CasHead { from: 3, to: 4 }), MemOrder::Release);
    assert_eq!(strength(Action::Pin), MemOrder::Relaxed);
    assert_eq!(strength(Action::Unpin), MemOrder::Relaxed);
    assert_eq!(strength(Action::Alloc), MemOrder::Relaxed);
    assert_eq!(strength(Action::TakeItem { at: 1 }), MemOrder::Relaxed);
    assert_eq!(strength(Action::Retire { at: 1 }), MemOrder::Relaxed);
    assert_eq!(strength(Action::Finish), MemOrder::Relaxed);
}

#[test]
fn operations_can_be_driven_on_a_bare_arena() {
    let mut a: Arena<&str> = Arena::new(Reclaim::Immediate);
    let mut push = PushOp::new("x", Repair::Helper);
    assert!(!push.done());
    while !push.done() {
        push.step(&mut a);
    }
    assert_eq!(a.size(), 1);
    let mut pop: PopOp<&str> = PopOp::new();
    assert!(!pop.done());
    while !pop.done() {
        pop.step(&mut a);
    }
    assert_eq!(pop.state, PopState::Done { got: true });
    assert_eq!(pop.into_item(), Some("x"));
    // released at once, although the guard log knows of no open guard
    assert_eq!(a.life(0), Some(Life::Freed));
    let mut empty: PopOp<&str> = PopOp::new();
    while !empty.done() {
        empty.step(&mut a);
    }
    assert_eq!(empty.state, PopState::Done { got: false });
    assert_eq!(empty.into_item(), None);
}

#[test]
fn a_pop_that_passes_the_length_check_may_still_find_nothing() {
    let mut q = Bench::he();
    q.push(1u8);
    let mut slow = q.begin_pop();
    assert_eq!(q.step_pop(&mut slow), Event::Len(1));
    assert_eq!(q.pop(), Some(1));
    while !slow.done() {
        q.step_pop(&mut slow);
    }
    assert_eq!(slow.state, PopState::Done { got: false });
    assert_eq!(slow.into_item(), None);
    assert_eq!(q.size(), 0);
}
