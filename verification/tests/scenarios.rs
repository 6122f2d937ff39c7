use l3queue::arena::Arena;
use l3queue::crs_queue::CrsQueue;
use l3queue::engine::{PopOp, PushOp};
use l3queue::he_queue::HeQueue;
use l3queue::lock_queue::LockQueue;
use l3queue::lq::LinkedQueue;
use l3queue::protocol::{Reclaim, Repair};
use l3queue::solo::run_pop;

/// A queue whose operations can be advanced one access at a time.
trait Stepped {
    fn fresh() -> Self;
    fn start_push(&self, v: u128) -> PushOp<u128>;
    fn advance_push(&mut self, op: &mut PushOp<u128>);
    fn start_pop(&self) -> PopOp<u128>;
    fn advance_pop(&mut self, op: &mut PopOp<u128>);
    fn reads_empty(&self) -> bool;
    fn pop_now(&mut self) -> Option<u128>;
    fn memory(&self) -> &Arena<u128>;
}

/// The memory of the queue with deferred reclamation and walking pushes.
struct Crs(Arena<u128>);

/// The memory of the queue with deferred reclamation and helping pushes.
struct He(Arena<u128>);

/// The memory of the queue without a reclamation scheme.
struct Lq(Arena<u128>);

impl Stepped for Crs {
    fn fresh() -> Self {
        Crs(Arena::new(Reclaim::Deferred))
    }
    fn start_push(&self, v: u128) -> PushOp<u128> {
        PushOp::new(v, Repair::LocalWalk)
    }
    fn advance_push(&mut self, op: &mut PushOp<u128>) {
        op.step(&mut self.0);
    }
    fn start_pop(&self) -> PopOp<u128> {
        PopOp::new()
    }
    fn advance_pop(&mut self, op: &mut PopOp<u128>) {
        op.step(&mut self.0);
    }
    fn reads_empty(&self) -> bool {
        self.0.is_empty()
    }
    fn pop_now(&mut self) -> Option<u128> {
        run_pop(&mut self.0)
    }
    fn memory(&self) -> &Arena<u128> {
        &self.0
    }
}

impl Stepped for He {
    fn fresh() -> Self {
        He(Arena::new(Reclaim::Deferred))
    }
    fn start_push(&self, v: u128) -> PushOp<u128> {
        PushOp::new(v, Repair::Helper)
    }
    fn advance_push(&mut self, op: &mut PushOp<u128>) {
        op.step(&mut self.0);
    }
    fn start_pop(&self) -> PopOp<u128> {
        PopOp::new()
    }
    fn advance_pop(&mut self, op: &mut PopOp<u128>) {
        op.step(&mut self.0);
    }
    fn reads_empty(&self) -> bool {
        self.0.is_empty()
    }
    fn pop_now(&mut self) -> Option<u128> {
        run_pop(&mut self.0)
    }
    fn memory(&self) -> &Arena<u128> {
        &self.0
    }
}

impl Stepped for Lq {
    fn fresh() -> Self {
        Lq(Arena::new(Reclaim::Immediate))
    }
    fn start_push(&self, v: u128) -> PushOp<u128> {
        PushOp::new(v, Repair::LocalWalk)
    }
    fn advance_push(&mut self, op: &mut PushOp<u128>) {
        op.step(&mut self.0);
    }
    fn start_pop(&self) -> PopOp<u128> {
        PopOp::new()
    }
    fn advance_pop(&mut self, op: &mut PopOp<u128>) {
        op.step(&mut self.0);
    }
    fn reads_empty(&self) -> bool {
        self.0.is_empty()
    }
    fn pop_now(&mut self) -> Option<u128> {
        run_pop(&mut self.0)
    }
    fn memory(&self) -> &Arena<u128> {
        &self.0
    }
}

/// A small deterministic generator that picks who moves next.
struct Dice(u64);

impl Dice {
    fn roll(&mut self, n: usize) -> usize {
        self.0 = self.0.wrapping_mul(6364136223846793005).wrapping_add(1442695040888963407);
        ((self.0 >> 33) % (n as u64)) as usize
    }
}

/// A producer that pushes the integers of a range, one push at a time.
struct Producer {
    next: u128,
    end: u128,
    op: Option<PushOp<u128>>,
}

impl Producer {
    fn over(&self) -> bool {
        self.op.is_none() && self.next == self.end
    }

    fn step<Q: Stepped>(&mut self, q: &mut Q) {
        if self.op.is_none() && self.next < self.end {
            self.op = Some(q.start_push(self.next));
            self.next += 1;
        }
        let mut finished = false;
        if let Some(op) = self.op.as_mut() {
            q.advance_push(op);
            finished = op.done();
        }
        if finished {
            self.op = None;
        }
    }
}

/// A consumer that pops, one access at a time, until every producer is over
/// and the queue reads empty.
struct Consumer {
    op: Option<PopOp<u128>>,
    sum: u128,
    count: u128,
    seen: Vec<u128>,
    over: bool,
}

impl Consumer {
    fn step<Q: Stepped>(&mut self, q: &mut Q, producing: bool) {
        if self.over {
            return;
        }
        if self.op.is_none() {
            if producing || !q.reads_empty() {
                self.op = Some(q.start_pop());
            } else {
                self.over = true;
                return;
            }
        }
        let mut finished = false;
        if let Some(op) = self.op.as_mut() {
            q.advance_pop(op);
            finished = op.done();
        }
        if finished {
            if let Some(v) = self.op.take().unwrap().into_item() {
                self.sum += v;
                self.count += 1;
                self.seen.push(v);
            }
        }
    }
}

/// Runs the producers of the given ranges against `consumers` consumers in
/// an order that `seed` fixes, and returns the sum and the number of the
/// popped values.
fn run_mixed<Q: Stepped>(ranges: &[(u128, u128)], consumers: usize, seed: u64) -> (u128, u128) {
    let (q, takers) = run_workers::<Q>(ranges, consumers, seed);
    assert!(q.reads_empty());
    let mut sum = 0;
    let mut count = 0;
    for c in takers.iter() {
        sum += c.sum;
        count += c.count;
    }
    (sum, count)
}

/// Runs the producers of the given ranges against `consumers` consumers in
/// an order that `seed` fixes, and returns the queue and the consumers as
/// they are at the end.
fn run_workers<Q: Stepped>(
    ranges: &[(u128, u128)],
    consumers: usize,
    seed: u64,
) -> (Q, Vec<Consumer>) {
    let mut q = Q::fresh();
    let mut dice = Dice(seed);
    let mut producers: Vec<Producer> = Vec::new();
    for r in ranges {
        producers.push(Producer { next: r.0, end: r.1, op: None });
    }
    let mut takers: Vec<Consumer> = Vec::new();
    for _ in 0..consumers {
        takers.push(Consumer { op: None, sum: 0, count: 0, seen: Vec::new(), over: false });
    }
    loop {
        let producing = producers.iter().any(|p| !p.over());
        let consuming = takers.iter().any(|c| !c.over);
        if !producing && !consuming {
            break;
        }
        let who = dice.roll(producers.len() + takers.len());
        if who < producers.len() {
            producers[who].step(&mut q);
        } else {
            takers[who - producers.len()].step(&mut q, producing);
        }
    }
    (q, takers)
}

/// Runs two producers side by side to their end, then pops until nothing
/// comes, and returns the sum of the popped values.
fn run_send_then_receive<Q: Stepped>(pad: u128, seed: u64) -> u128 {
    let mut q = Q::fresh();
    let mut dice = Dice(seed);
    let mut producers = vec![
        Producer { next: 0, end: pad, op: None },
        Producer { next: pad, end: 2 * pad, op: None },
    ];
    while producers.iter().any(|p| !p.over()) {
        let who = dice.roll(2);
        producers[who].step(&mut q);
    }
    let mut sum = 0;
    while let Some(got) = q.pop_now() {
        sum += got;
    }
    sum
}

#[test]
fn crs_queue_test_single() {
    let mut q = CrsQueue::new();
    q.push(1);
    q.push(1);
    q.push(4);
    q.push(5);
    q.push(1);
    q.push(4);
    assert_eq!(q.pop(), Some(1));
    assert_eq!(q.pop(), Some(1));
    assert_eq!(q.pop(), Some(4));
    assert_eq!(q.pop(), Some(5));
    assert_eq!(q.pop(), Some(1));
    assert_eq!(q.pop(), Some(4));
}

#[test]
fn he_queue_test_single() {
    let mut q = HeQueue::new();
    q.push(1);
    q.push(1);
    q.push(4);
    q.push(5);
    q.push(1);
    q.push(4);
    assert_eq!(q.pop(), Some(1));
    assert_eq!(q.pop(), Some(1));
    assert_eq!(q.pop(), Some(4));
    assert_eq!(q.pop(), Some(5));
    assert_eq!(q.pop(), Some(1));
    assert_eq!(q.pop(), Some(4));
}

#[test]
fn lq_test_single() {
    let mut q = LinkedQueue::new();
    q.push(1);
    q.push(1);
    q.push(4);
    q.push(5);
    q.push(1);
    q.push(4);
    assert_eq!(q.pop(), Some(1));
    assert_eq!(q.pop(), Some(1));
    assert_eq!(q.pop(), Some(4));
    assert_eq!(q.pop(), Some(5));
    assert_eq!(q.pop(), Some(1));
    assert_eq!(q.pop(), Some(4));
}

#[test]
fn crs_queue_test_concurrent_send() {
    let pad = 100000_u128;
    let sum = run_send_then_receive::<Crs>(pad, 11);
    assert_eq!(sum, (0..(2 * pad)).sum())
}

#[test]
fn he_queue_test_concurrent_send() {
    let pad = 100000_u128;
    let sum = run_send_then_receive::<He>(pad, 12);
    assert_eq!(sum, (0..(2 * pad)).sum())
}

#[test]
fn lq_test_concurrent_send() {
    let pad = 100000_u128;
    let sum = run_send_then_receive::<Lq>(pad, 13);
    assert_eq!(sum, (0..(2 * pad)).sum())
}

#[test]
fn lock_queue_test_concurrent_send() {
    let pad = 100000_u128;
    let mut q = LockQueue::new();
    let mut dice = Dice(14);
    let mut a = 0;
    let mut b = pad;
    while a < pad || b < 2 * pad {
        if (dice.roll(2) == 0 && a < pad) || b == 2 * pad {
            q.push(a);
            a += 1;
        } else {
            q.push(b);
            b += 1;
        }
    }
    let mut sum = 0;
    while let Some(got) = q.pop() {
        sum += got;
    }
    assert_eq!(sum, (0..(2 * pad)).sum())
}

#[test]
fn crs_queue_test_mpsc() {
    let pad = 10_0000u128;
    let (sum, count) =
        run_mixed::<Crs>(&[(0, pad), (pad, 2 * pad), (2 * pad, 3 * pad)], 1, 21);
    assert_eq!(sum, (0..(3 * pad)).sum());
    assert_eq!(count, 3 * pad);
}

#[test]
fn he_queue_test_mpsc() {
    let pad = 100_0000u128;
    let (sum, count) =
        run_mixed::<He>(&[(0, pad), (pad, 2 * pad), (2 * pad, 3 * pad)], 1, 22);
    assert_eq!(sum, (0..(3 * pad)).sum());
    assert_eq!(count, 3 * pad);
}

#[test]
fn lq_test_mpsc() {
    let pad = 100_0000u128;
    let (sum, count) =
        run_mixed::<Lq>(&[(0, pad), (pad, 2 * pad), (2 * pad, 3 * pad)], 1, 23);
    assert_eq!(sum, (0..(3 * pad)).sum());
    assert_eq!(count, 3 * pad);
}

#[test]
fn lock_queue_test_mpsc() {
    let pad = 10000_u128;
    let mut q = LockQueue::new();
    let mut dice = Dice(24);
    let mut next = [0, pad, 2 * pad];
    let end = [pad, 2 * pad, 3 * pad];
    let mut sum = 0;
    loop {
        let producing = (0..3).any(|i| next[i] < end[i]);
        if !producing && q.is_empty() {
            break;
        }
        let who = dice.roll(4);
        if who < 3 {
            if next[who] < end[who] {
                q.push(next[who]);
                next[who] += 1;
            }
        } else if let Some(num) = q.pop() {
            sum += num;
        }
    }
    assert_eq!(sum, (0..(3 * pad)).sum());
}

#[test]
fn crs_queue_test_mpmc() {
    let pad = 10_0000u128;
    let (sum, count) =
        run_mixed::<Crs>(&[(0, pad), (pad, 2 * pad), (2 * pad, 3 * pad)], 2, 31);
    assert_eq!(sum, (0..(3 * pad)).sum());
    assert_eq!(count, 3 * pad);
}

#[test]
fn he_queue_test_mpmc() {
    let pad = 10_0000u128;
    let (sum, count) =
        run_mixed::<He>(&[(0, pad), (pad, 2 * pad), (2 * pad, 3 * pad)], 2, 32);
    assert_eq!(sum, (0..(3 * pad)).sum());
    assert_eq!(count, 3 * pad);
}

#[test]
fn mixed_runs_conserve_under_many_orders() {
    for seed in 0..40u64 {
        let pad = 50u128;
        let ranges = [(0, pad), (pad, 2 * pad), (2 * pad, 3 * pad)];
        let expected: u128 = (0..(3 * pad)).sum();
        assert_eq!(run_mixed::<Crs>(&ranges, 2, seed), (expected, 3 * pad));
        assert_eq!(run_mixed::<He>(&ranges, 3, seed), (expected, 3 * pad));
        assert_eq!(run_mixed::<Lq>(&ranges, 2, seed), (expected, 3 * pad));
    }
}

#[test]
fn every_item_is_popped_exactly_once() {
    for seed in 100..110u64 {
        let pad = 200u128;
        let ranges = [(0, pad), (pad, 2 * pad), (2 * pad, 3 * pad)];
        let (_, takers) = run_workers::<He>(&ranges, 3, seed);
        let mut times = vec![0u32; (3 * pad) as usize];
        for c in takers.iter() {
            for v in c.seen.iter() {
                times[*v as usize] += 1;
            }
        }
        assert!(times.iter().all(|t| *t == 1));
        let (_, takers) = run_workers::<Crs>(&ranges, 2, seed);
        let mut times = vec![0u32; (3 * pad) as usize];
        for c in takers.iter() {
            for v in c.seen.iter() {
                times[*v as usize] += 1;
            }
        }
        assert!(times.iter().all(|t| *t == 1));
    }
}

#[test]
fn one_consumer_sees_each_producers_items_in_order() {
    for seed in 200..210u64 {
        let pad = 100u128;
        let ranges = [(0, pad), (pad, 2 * pad), (2 * pad, 3 * pad)];
        let (_, takers) = run_workers::<Crs>(&ranges, 1, seed);
        let seen = &takers[0].seen;
        assert_eq!(seen.len(), 300);
        for r in ranges.iter() {
            let own: Vec<u128> = seen.iter().filter(|v| r.0 <= **v && **v < r.1).cloned().collect();
            let sorted: Vec<u128> = (r.0..r.1).collect();
            assert_eq!(own, sorted);
        }
    }
}

#[test]
fn a_long_mixed_run_leaves_the_length_at_zero() {
    let pad = 20000u128;
    let ranges = [(0, pad), (pad, 2 * pad), (2 * pad, 3 * pad), (3 * pad, 4 * pad)];
    let (mut q, takers) = run_workers::<Crs>(&ranges, 3, 77);
    let total: u128 = takers.iter().map(|c| c.count).sum();
    assert_eq!(total, 4 * pad);
    assert_eq!(q.memory().size(), 0);
    assert!(q.reads_empty());
    assert_eq!(q.pop_now(), None);
    assert_eq!(q.memory().walk().len(), 1);
    assert!(!q.memory().misuse());
    let (mut h, takers) = run_workers::<He>(&ranges, 3, 78);
    let total: u128 = takers.iter().map(|c| c.count).sum();
    assert_eq!(total, 4 * pad);
    assert_eq!(h.memory().size(), 0);
    assert!(h.reads_empty());
    assert_eq!(h.pop_now(), None);
    assert!(!h.memory().misuse());
}

#[test]
fn pops_never_record_a_hazard_under_deferred_reclamation_with_one_producer() {
    for seed in 300..320u64 {
        let (q, _) = run_workers::<Crs>(&[(0, 300)], 3, seed);
        assert!(!q.memory().hazard());
        assert!(!q.memory().misuse());
        let (h, _) = run_workers::<He>(&[(0, 300)], 3, seed);
        assert!(!h.memory().hazard());
        assert!(!h.memory().misuse());
    }
}
