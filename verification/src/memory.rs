//! The shared memory of a queue as a mathematical state, and what each
//! atomic access does to it.
//!
//! Cells are never moved and their identifiers are never reused, so a
//! reference stays meaningful after its cell was released: an access through
//! it is answered as if the cell were still there, and recorded as a hazard.
//! An access that the algorithms never make (linking a cell twice, taking
//! the payload of a cell that still waits in the queue) is refused and
//! recorded as misuse. Either way the state stays well formed, whatever the
//! accesses are and in whatever order they come.

use crate::node::{Life, Node};
use crate::protocol::{Action, Event, Reclaim};
use vstd::arithmetic::div_mod::{lemma_fundamental_div_mod, lemma_fundamental_div_mod_converse, lemma_small_mod};
use vstd::prelude::*;

verus! {

/// What one operation holds outside the shared memory: the payload on its
/// way in or out, and the guard it opened.
pub struct Hand<T> {
    pub item: Option<T>,
    pub guard: Option<usize>,
}

/// The state of the shared memory.
pub struct Memory<T> {
    /// The cells, by identifier.
    pub nodes: Seq<Node<T>>,
    /// What is recorded of each cell's life; release is not recorded here
    /// but follows from `stamps` and `released`.
    pub lives: Seq<Life>,
    /// For a retired cell, its place in `retired`.
    pub stamps: Seq<usize>,
    /// The head reference: the sentinel.
    pub head: usize,
    /// The tail reference.
    pub tail: usize,
    /// The advisory length.
    pub count: usize,
    /// What happens to detached sentinels.
    pub policy: Reclaim,
    /// The cells handed to the reclamation policy, in the order of the
    /// handing over.
    pub retired: Seq<usize>,
    /// How many of `retired`, from its start, are released.
    pub released: nat,
    /// Every guard ever opened, in the order of opening: for an open one,
    /// the length of `retired` when it was opened; `None` once it is closed.
    pub guards: Seq<Option<usize>>,
    /// Whether a released cell was accessed.
    pub hazard: bool,
    /// Whether an access was refused.
    pub misuse: bool,
    /// Every cell ever linked, in link order, the first sentinel in front.
    pub chain: Seq<usize>,
    /// The payload of every cell ever linked, in link order.
    pub history: Seq<T>,
    /// How often the head advanced: the payloads `history[..claimed]` were
    /// claimed by pops, the rest wait in the queue.
    pub claimed: nat,
    /// The places in `history` of the payloads that were moved out of their
    /// cells, in the order of the moving.
    pub handed: Seq<int>,
    /// The cells that are allocated and not linked yet.
    pub fresh: Set<usize>,
    /// How often one was added to the advisory length.
    pub adds: nat,
    /// How often one was subtracted from the advisory length.
    pub subs: nat,
}

/// The advisory length after adding one: it wraps.
pub open spec fn bump(c: usize) -> usize {
    if c == usize::MAX {
        0
    } else {
        (c + 1) as usize
    }
}

/// The advisory length after subtracting one: it wraps.
pub open spec fn drop_one(c: usize) -> usize {
    if c == 0 {
        usize::MAX
    } else {
        (c - 1) as usize
    }
}

/// The place of the first open guard at or behind `from`, or the number of
/// guards if none is open there.
pub open spec fn first_open(guards: Seq<Option<usize>>, from: int) -> int
    decreases guards.len() - from,
{
    if from < 0 || from >= guards.len() {
        guards.len() as int
    } else if guards[from].is_some() {
        from
    } else {
        first_open(guards, from + 1)
    }
}

/// Zero is the wrapped value of zero.
pub proof fn lemma_wrap_zero()
    ensures
        0int % (usize::MAX + 1) == 0,
{
    lemma_small_mod(0, (usize::MAX + 1) as nat);
}

/// Adding one to a wrapped value wraps the sum.
pub proof fn lemma_wrap_bump(c: usize, x: int)
    requires
        c as int == x % (usize::MAX + 1),
    ensures
        bump(c) as int == (x + 1) % (usize::MAX + 1),
{
    let m = usize::MAX + 1;
    lemma_fundamental_div_mod(x, m);
    let q = x / m;
    assert(x == q * m + c) by (nonlinear_arith)
        requires
            x == m * q + c,
    ;
    if c == usize::MAX {
        assert(x + 1 == (q + 1) * m + 0) by (nonlinear_arith)
            requires
                x == q * m + c,
                c == m - 1,
        ;
        lemma_fundamental_div_mod_converse(x + 1, m, q + 1, 0);
    } else {
        lemma_fundamental_div_mod_converse(x + 1, m, q, c + 1);
    }
}

/// Subtracting one from a wrapped value wraps the difference.
pub proof fn lemma_wrap_drop(c: usize, x: int)
    requires
        c as int == x % (usize::MAX + 1),
    ensures
        drop_one(c) as int == (x - 1) % (usize::MAX + 1),
{
    let m = usize::MAX + 1;
    lemma_fundamental_div_mod(x, m);
    let q = x / m;
    assert(x == q * m + c) by (nonlinear_arith)
        requires
            x == m * q + c,
    ;
    if c == 0 {
        assert(x - 1 == (q - 1) * m + (m - 1)) by (nonlinear_arith)
            requires
                x == q * m + c,
                c == 0,
        ;
        lemma_fundamental_div_mod_converse(x - 1, m, q - 1, m - 1);
    } else {
        lemma_fundamental_div_mod_converse(x - 1, m, q, c - 1);
    }
}

/// A wrapped value that fits is the value itself.
pub proof fn lemma_wrap_small(c: usize, x: int)
    requires
        c as int == x % (usize::MAX + 1),
        0 <= x <= usize::MAX,
    ensures
        c as int == x,
{
    lemma_small_mod(x as nat, (usize::MAX + 1) as nat);
}

impl<T> Memory<T> {
    /// Whether `id` names a cell.
    pub open spec fn valid(self, id: usize) -> bool {
        (id as int) < self.nodes.len()
    }

    /// Where the cell `id` stands in its life.
    pub open spec fn life(self, id: usize) -> Life {
        if self.lives[id as int] == Life::Retired && self.stamps[id as int] < self.released {
            Life::Freed
        } else {
            self.lives[id as int]
        }
    }

    /// The payloads that wait in the queue, oldest first.
    pub open spec fn queue(self) -> Seq<T> {
        self.history.skip(self.claimed as int)
    }

    /// The place of the cell `id` in the chain.
    pub open spec fn place(self, id: usize) -> int {
        choose|k: int| 0 <= k < self.chain.len() && self.chain[k] == id
    }

    /// How many links lie between the cell `id` and the end of the chain.
    pub open spec fn distance(self, id: usize) -> int {
        self.chain.len() - 1 - self.place(id)
    }

    /// Whether a released cell stands at the tail or behind it, where an
    /// operation that starts from the tail meets it.
    pub open spec fn lagging(self) -> bool {
        exists|k: int|
            self.place(self.tail) <= k < self.chain.len() && self.life(#[trigger] self.chain[k])
                == Life::Freed
    }

    /// Whether the tail is the last cell of the chain, as it is whenever no
    /// push stands between its link and its swing of the tail and none lost
    /// its swing to a push that linked before it.
    pub open spec fn tidy(self) -> bool {
        self.tail == self.chain.last()
    }

    /// Whether every link and every head advance has been counted, as is the
    /// case whenever no push stands between its link and its count and no
    /// pop between its head advance and its count.
    pub open spec fn settled(self) -> bool {
        self.adds == self.history.len() && self.subs == self.claimed
    }

    /// Whether the guard `g` is open.
    pub open spec fn open(self, g: usize) -> bool {
        (g as int) < self.guards.len() && self.guards[g as int].is_some()
    }

    /// How many retired cells may be released: those handed over before the
    /// oldest open guard was opened, or all of them if no guard is open.
    pub open spec fn floor(self) -> nat {
        let g = first_open(self.guards, 0);
        if g < self.guards.len() {
            self.guards[g].unwrap() as nat
        } else {
            self.retired.len()
        }
    }

    /// The chain: every linked cell once, each but the last linked to the
    /// next, the sentinel at place `claimed`, exactly the cells from the
    /// sentinel on recorded as linked, and the tail somewhere in it.
    pub open spec fn wf_chain(self) -> bool {
        &&& self.chain.len() >= 1
        &&& self.chain.no_duplicates()
        &&& forall|k: int| 0 <= k < self.chain.len() ==> self.valid(#[trigger] self.chain[k])
        &&& forall|i: int|
            0 <= i < self.nodes.len() ==> ((#[trigger] self.lives[i]) != Life::Fresh
                <==> self.chain.contains(i as usize))
        &&& forall|k: int|
            0 <= k < self.chain.len() - 1 ==> self.nodes[(#[trigger] self.chain[k]) as int].next
                == Some(self.chain[k + 1])
        &&& self.nodes[self.chain.last() as int].next.is_none()
        &&& forall|k: int|
            0 <= k < self.chain.len() ==> ((self.lives[(#[trigger] self.chain[k]) as int]
                == Life::Linked) <==> k >= self.claimed)
        &&& self.claimed < self.chain.len()
        &&& self.head == self.chain[self.claimed as int]
        &&& self.valid(self.tail)
        &&& self.lives[self.tail as int] != Life::Fresh
    }

    /// The cells that wait for their link: they carry a payload and no link,
    /// and together with the chain they are all the cells there are.
    pub open spec fn wf_fresh(self) -> bool {
        &&& self.fresh.finite()
        &&& forall|id: usize|
            self.fresh.contains(id) <==> (self.valid(id) && self.lives[id as int] == Life::Fresh)
        &&& self.chain.len() + self.fresh.len() == self.nodes.len()
        &&& forall|i: int|
            0 <= i < self.nodes.len() && (#[trigger] self.lives[i]) == Life::Fresh ==> {
                &&& self.nodes[i].next.is_none()
                &&& self.nodes[i].item.is_some()
            }
    }

    /// The payloads: the first sentinel never had one, a waiting cell holds
    /// the payload it was linked with, and a claimed cell holds it until it
    /// is taken. What was taken was claimed before, and nothing was taken
    /// twice.
    pub open spec fn wf_items(self) -> bool {
        &&& self.history.len() == self.chain.len() - 1
        &&& self.nodes[self.chain[0] as int].item.is_none()
        &&& forall|k: int|
            self.claimed < k < self.chain.len() ==> self.nodes[(#[trigger] self.chain[k]) as int].item
                == Some(self.history[k - 1])
        &&& forall|k: int|
            1 <= k <= self.claimed && k < self.chain.len() ==> {
                ||| self.nodes[(#[trigger] self.chain[k]) as int].item.is_none()
                ||| self.nodes[self.chain[k] as int].item == Some(self.history[k - 1])
            }
        &&& self.handed.no_duplicates()
        &&& forall|j: int|
            0 <= j < self.handed.len() ==> 0 <= (#[trigger] self.handed[j]) < self.claimed
        &&& forall|k: int|
            1 <= k <= self.claimed && k < self.chain.len() ==> (self.handed.contains(k - 1)
                <==> self.nodes[(#[trigger] self.chain[k]) as int].item.is_none())
    }

    /// The retired cells: each once, each stamped with its place, and under
    /// immediate reclamation all of them released.
    pub open spec fn wf_reclaim(self) -> bool {
        &&& self.released <= self.retired.len()
        &&& forall|p: int|
            0 <= p < self.retired.len() ==> {
                &&& self.valid(#[trigger] self.retired[p])
                &&& self.lives[self.retired[p] as int] == Life::Retired
                &&& self.stamps[self.retired[p] as int] == p
            }
        &&& forall|i: int|
            0 <= i < self.nodes.len() && (#[trigger] self.lives[i]) == Life::Retired ==> {
                &&& self.stamps[i] < self.retired.len()
                &&& self.retired[self.stamps[i] as int] == i
            }
        &&& forall|i: int| 0 <= i < self.nodes.len() ==> (#[trigger] self.lives[i]) != Life::Freed
        &&& self.policy == Reclaim::Immediate ==> self.released == self.retired.len()
    }

    /// The guards: an open guard was opened when `retired` was no longer
    /// than it is now, a later one no earlier than a former one, and under
    /// deferred reclamation nothing is released that was handed over after
    /// an open guard was opened.
    pub open spec fn wf_guards(self) -> bool {
        &&& forall|g: int|
            0 <= g < self.guards.len() && (#[trigger] self.guards[g]).is_some() ==> {
                &&& self.guards[g].unwrap() <= self.retired.len()
                &&& self.policy == Reclaim::Deferred ==> self.released <= self.guards[g].unwrap()
            }
        &&& forall|g: int, h: int|
            0 <= g <= h < self.guards.len() && (#[trigger] self.guards[g]).is_some() && (
            #[trigger] self.guards[h]).is_some() ==> self.guards[g].unwrap()
                <= self.guards[h].unwrap()
    }

    /// The sizes fit the machine, and the advisory length is the number of
    /// additions less the number of subtractions, wrapped.
    pub open spec fn wf_sizes(self) -> bool {
        &&& self.lives.len() == self.nodes.len()
        &&& self.stamps.len() == self.nodes.len()
        &&& self.nodes.len() <= usize::MAX
        &&& self.retired.len() <= usize::MAX
        &&& self.guards.len() <= usize::MAX
        &&& self.count as int == (self.adds - self.subs) % (usize::MAX + 1)
    }

    /// The invariant of the shared memory.
    #[verifier::opaque]
    pub open spec fn wf(self) -> bool {
        &&& self.wf_sizes()
        &&& self.wf_chain()
        &&& self.wf_fresh()
        &&& self.wf_items()
        &&& self.wf_reclaim()
        &&& self.wf_guards()
    }

    /// The access to cell `id` is recorded as a hazard if the cell is
    /// released.
    pub open spec fn touch(self, id: usize) -> Self {
        Memory { hazard: self.hazard || self.life(id) == Life::Freed, ..self }
    }

    /// The access is refused: nothing changes but the record of misuse.
    pub open spec fn refuse(self) -> Self {
        Memory { misuse: true, ..self }
    }

    /// Opens a guard; the second component names it.
    pub open spec fn pin(self) -> (Self, usize) {
        (
            Memory { guards: self.guards.push(Some(self.retired.len() as usize)), ..self },
            self.guards.len() as usize,
        )
    }

    /// Closes the guard `g`. Under deferred reclamation every retired cell
    /// that no open guard protects any longer is released.
    pub open spec fn unpin(self, g: usize) -> Self {
        if !self.open(g) {
            self.refuse()
        } else {
            let closed = Memory { guards: self.guards.update(g as int, None), ..self };
            match self.policy {
                Reclaim::Immediate => closed,
                Reclaim::Deferred => Memory { released: closed.floor(), ..closed },
            }
        }
    }

    /// Allocates a cell for `item`; the second component names it.
    pub open spec fn allocate(self, item: T) -> (Self, usize) {
        let id = self.nodes.len() as usize;
        (
            Memory {
                nodes: self.nodes.push(Node { item: Some(item), next: None }),
                lives: self.lives.push(Life::Fresh),
                stamps: self.stamps.push(0usize),
                fresh: self.fresh.insert(id),
                ..self
            },
            id,
        )
    }

    /// Reads the link of cell `at`.
    pub open spec fn load_next(self, at: usize) -> (Self, Option<usize>) {
        if !self.valid(at) {
            (self.refuse(), None)
        } else {
            (self.touch(at), self.nodes[at as int].next)
        }
    }

    /// Links the fresh cell `new` behind the cell `at` if `at` has no
    /// successor; the second component tells whether it did.
    ///
    /// Refused unless `new` is fresh and `at` was linked once.
    pub open spec fn cas_next(self, at: usize, new: usize) -> (Self, bool) {
        if !self.valid(at) || !self.valid(new) || self.lives[new as int] != Life::Fresh
            || self.lives[at as int] == Life::Fresh {
            (self.refuse(), false)
        } else if self.nodes[at as int].next.is_some() {
            (self.touch(at), false)
        } else {
            (
                Memory {
                    nodes: self.nodes.update(
                        at as int,
                        Node { item: self.nodes[at as int].item, next: Some(new) },
                    ),
                    lives: self.lives.update(new as int, Life::Linked),
                    chain: self.chain.push(new),
                    history: self.history.push(self.nodes[new as int].item.unwrap()),
                    fresh: self.fresh.remove(new),
                    ..self.touch(at)
                },
                true,
            )
        }
    }

    /// Sets the tail to `to` if it is `from`; the second component tells
    /// whether it did.
    ///
    /// Refused if `to` was never linked.
    pub open spec fn cas_tail(self, from: usize, to: usize) -> (Self, bool) {
        if self.tail != from {
            (self, false)
        } else if !self.valid(to) || self.lives[to as int] == Life::Fresh {
            (self.refuse(), false)
        } else {
            (Memory { tail: to, ..self }, true)
        }
    }

    /// Advances the head to `to` if it is `from`, which detaches `from` and
    /// claims the payload of `to`; the second component tells whether it
    /// did.
    ///
    /// Refused if `to` is not the successor of `from`.
    pub open spec fn cas_head(self, from: usize, to: usize) -> (Self, bool) {
        if self.head != from {
            (self, false)
        } else if self.nodes[from as int].next != Some(to) {
            (self.refuse(), false)
        } else {
            (
                Memory {
                    head: to,
                    claimed: self.claimed + 1,
                    lives: self.lives.update(from as int, Life::Detached),
                    ..self
                },
                true,
            )
        }
    }

    /// Whether the head went past the cell `at` or stands on it, so that its
    /// payload, if it had one, was claimed.
    pub open spec fn passed(self, at: usize) -> bool {
        self.valid(at) && (at == self.head || self.lives[at as int] == Life::Detached
            || self.lives[at as int] == Life::Retired)
    }

    /// Moves the payload out of cell `at`, if it still has one, and records
    /// its place in `history` as handed out; the second component is the
    /// payload.
    ///
    /// Refused while the payload of `at` still waits in the queue.
    pub open spec fn take_item(self, at: usize) -> (Self, Option<T>) {
        if !self.passed(at) {
            (self.refuse(), None)
        } else {
            (
                Memory {
                    nodes: self.nodes.update(
                        at as int,
                        Node { item: None, next: self.nodes[at as int].next },
                    ),
                    handed: if self.nodes[at as int].item.is_some() {
                        self.handed.push(self.place(at) - 1)
                    } else {
                        self.handed
                    },
                    ..self.touch(at)
                },
                self.nodes[at as int].item,
            )
        }
    }

    /// Hands the detached cell `at` to the reclamation policy, which
    /// releases it at once or keeps it until the guards allow.
    ///
    /// Refused unless `at` is detached and was not handed over before.
    pub open spec fn retire(self, at: usize) -> Self {
        if !self.valid(at) || self.lives[at as int] != Life::Detached {
            self.refuse()
        } else {
            let kept = Memory {
                lives: self.lives.update(at as int, Life::Retired),
                stamps: self.stamps.update(at as int, self.retired.len() as usize),
                retired: self.retired.push(at),
                ..self
            };
            match self.policy {
                Reclaim::Immediate => Memory { released: kept.retired.len(), ..kept },
                Reclaim::Deferred => kept,
            }
        }
    }

    /// Adds one to the advisory length.
    pub open spec fn add_len(self) -> Self {
        Memory { count: bump(self.count), adds: self.adds + 1, ..self }
    }

    /// Subtracts one from the advisory length.
    pub open spec fn sub_len(self) -> Self {
        Memory { count: drop_one(self.count), subs: self.subs + 1, ..self }
    }

    /// What the access `action` of an operation that holds `hand` does:
    /// the memory and the hand after it, and the answer.
    pub open spec fn perform(self, hand: Hand<T>, action: Action) -> (Self, Hand<T>, Event) {
        match action {
            Action::Pin => if hand.guard.is_some() {
                (self.refuse(), hand, Event::Unit)
            } else {
                (self.pin().0, Hand { item: hand.item, guard: Some(self.pin().1) }, Event::Unit)
            },
            Action::Unpin => match hand.guard {
                Some(g) => (self.unpin(g), Hand { item: hand.item, guard: None }, Event::Unit),
                None => (self.refuse(), hand, Event::Unit),
            },
            Action::Alloc => match hand.item {
                Some(v) => (
                    self.allocate(v).0,
                    Hand { item: None, guard: hand.guard },
                    Event::Ptr(Some(self.allocate(v).1)),
                ),
                None => (self.refuse(), hand, Event::Ptr(None)),
            },
            Action::LoadLen => (self, hand, Event::Len(self.count)),
            Action::LoadHead => (self, hand, Event::Ptr(Some(self.head))),
            Action::LoadTail => (self, hand, Event::Ptr(Some(self.tail))),
            Action::LoadNext { at } => (
                self.load_next(at).0,
                hand,
                Event::Ptr(self.load_next(at).1),
            ),
            Action::CasNext { at, new } => (
                self.cas_next(at, new).0,
                hand,
                Event::Cas(self.cas_next(at, new).1),
            ),
            Action::CasTail { from, to } => (
                self.cas_tail(from, to).0,
                hand,
                Event::Cas(self.cas_tail(from, to).1),
            ),
            Action::CasHead { from, to } => (
                self.cas_head(from, to).0,
                hand,
                Event::Cas(self.cas_head(from, to).1),
            ),
            Action::TakeItem { at } => if hand.item.is_some() {
                (self.refuse(), hand, Event::Unit)
            } else {
                (
                    self.take_item(at).0,
                    Hand { item: self.take_item(at).1, guard: hand.guard },
                    Event::Unit,
                )
            },
            Action::Retire { at } => (self.retire(at), hand, Event::Unit),
            Action::AddLen => (self.add_len(), hand, Event::Unit),
            Action::SubLen => (self.sub_len(), hand, Event::Unit),
            Action::Finish => (self, hand, Event::Unit),
        }
    }

    /// Whether the machine has room for what `action` may add.
    pub open spec fn roomy(self, action: Action) -> bool {
        match action {
            Action::Pin => self.guards.len() < usize::MAX,
            Action::Alloc => self.nodes.len() < usize::MAX,
            Action::Retire { .. } => self.retired.len() < usize::MAX,
            _ => true,
        }
    }

    /// The memory of a new queue: one sentinel, which is head and tail.
    pub open spec fn init(policy: Reclaim) -> Self {
        Memory {
            nodes: seq![Node { item: None, next: None }],
            lives: seq![Life::Linked],
            stamps: seq![0usize],
            head: 0,
            tail: 0,
            count: 0,
            policy,
            retired: Seq::empty(),
            released: 0,
            guards: Seq::empty(),
            hazard: false,
            misuse: false,
            chain: seq![0usize],
            history: Seq::empty(),
            claimed: 0,
            handed: Seq::empty(),
            fresh: Set::empty(),
            adds: 0,
            subs: 0,
        }
    }

    /// A new queue's memory is well formed and its queue is empty.
    pub proof fn lemma_init(policy: Reclaim)
        ensures
            Self::init(policy).wf(),
            Self::init(policy).queue() == Seq::<T>::empty(),
    {
        reveal(Memory::wf);
        let m = Self::init(policy);
        lemma_wrap_zero();
        assert(m.chain.contains(0usize)) by {}
    }
}

} // verus!
