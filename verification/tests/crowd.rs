use l3queue::crowd::Crowd;
use l3queue::protocol::{Reclaim, Repair};

/// A small deterministic generator that picks who moves next.
struct Dice(u64);

impl Dice {
    fn roll(&mut self, n: usize) -> usize {
        self.0 = self.0.wrapping_mul(6364136223846793005).wrapping_add(1442695040888963407);
        ((self.0 >> 33) % (n as u64)) as usize
    }
}

/// Begins `pushes` pushes of 0, 1, 2, ... and as many pops as it takes to
/// get every item out again, steps them in an order that `seed` fixes, and
/// returns the crowd and the popped items.
fn mingle(policy: Reclaim, repair: Repair, pushes: u64, seed: u64) -> (Crowd<u64>, Vec<u64>) {
    let mut crowd = Crowd::new(policy);
    let mut dice = Dice(seed);
    let mut live: Vec<usize> = Vec::new();
    let mut pops: Vec<usize> = Vec::new();
    let mut begun = 0;
    let mut got: Vec<u64> = Vec::new();
    while (got.len() as u64) < pushes {
        let what = dice.roll(4);
        if what == 0 && begun < pushes {
            live.push(crowd.begin_push(begun, repair));
            begun += 1;
        } else if what == 1 && pops.len() < 3 {
            let id = crowd.begin_pop();
            live.push(id);
            pops.push(id);
        } else if !live.is_empty() {
            let k = dice.roll(live.len());
            let id = live[k];
            if crowd.step(id) {
                live.swap_remove(k);
                if let Some(at) = pops.iter().position(|p| *p == id) {
                    pops.swap_remove(at);
                    if let Some(v) = crowd.held(id) {
                        got.push(*v);
                    }
                }
            }
        }
    }
    while !live.is_empty() {
        let id = live[0];
        if crowd.step(id) {
            live.swap_remove(0);
            assert_eq!(crowd.held(id), None);
        }
    }
    (crowd, got)
}

#[test]
fn a_new_crowd_is_empty() {
    let c: Crowd<u8> = Crowd::new(Reclaim::Deferred);
    assert_eq!(c.len(), 0);
    assert_eq!(c.size(), 0);
    assert!(!c.hazard());
    assert!(!c.misuse());
    assert!(c.done(0));
    assert_eq!(c.held(0), None);
}

#[test]
fn a_crowd_steps_its_operations() {
    let mut c = Crowd::new(Reclaim::Deferred);
    let a = c.begin_push('a', Repair::LocalWalk);
    let b = c.begin_push('b', Repair::Helper);
    assert_eq!((a, b), (0, 1));
    assert_eq!(c.len(), 2);
    assert_eq!(c.held(a), Some(&'a'));
    while !c.step(b) {}
    assert!(c.done(b));
    assert!(!c.done(a));
    while !c.step(a) {}
    assert_eq!(c.held(a), None);
    assert_eq!(c.size(), 2);
    let p = c.begin_pop();
    let q = c.begin_pop();
    assert!(!c.step(q));
    while !c.step(p) {}
    while !c.step(q) {}
    assert_eq!(c.held(p), Some(&'b'));
    assert_eq!(c.held(q), Some(&'a'));
    assert_eq!(c.size(), 0);
    // a step of an operation that is over, or was never begun, changes nothing
    assert!(c.step(p));
    assert!(c.step(17));
    assert_eq!(c.held(p), Some(&'b'));
    assert_eq!(c.len(), 4);
    assert!(!c.misuse());
    assert!(!c.hazard());
}

#[test]
fn no_access_of_a_crowd_is_ever_refused() {
    for seed in 0..60u64 {
        for (policy, repair) in [
            (Reclaim::Deferred, Repair::LocalWalk),
            (Reclaim::Deferred, Repair::Helper),
            (Reclaim::Immediate, Repair::LocalWalk),
        ] {
            let (crowd, mut got) = mingle(policy, repair, 40, seed);
            assert!(!crowd.misuse());
            assert_eq!(crowd.size(), 0);
            got.sort();
            let all: Vec<u64> = (0..40).collect();
            assert_eq!(got, all);
        }
    }
}

#[test]
fn pops_of_a_crowd_meet_no_released_cell_under_deferred_reclamation() {
    for seed in 0..60u64 {
        let mut crowd = Crowd::new(Reclaim::Deferred);
        let first = crowd.begin_push(0u64, Repair::Helper);
        while !crowd.step(first) {}
        let mut dice = Dice(seed);
        let mut live: Vec<usize> = Vec::new();
        // one producer at a time, so that no push starts from a lagging tail
        let mut producer: Option<usize> = None;
        let mut next = 1u64;
        for _ in 0..2000 {
            let what = dice.roll(5);
            if what == 0 && live.len() < 4 {
                live.push(crowd.begin_pop());
            } else if what == 1 {
                if producer.is_none() && next < 50 {
                    producer = Some(crowd.begin_push(next, Repair::Helper));
                    next += 1;
                }
                if let Some(id) = producer {
                    if crowd.step(id) {
                        producer = None;
                    }
                }
            } else if !live.is_empty() {
                let k = dice.roll(live.len());
                if crowd.step(live[k]) {
                    live.swap_remove(k);
                }
            }
        }
        assert!(!crowd.hazard());
        assert!(!crowd.misuse());
    }
}
