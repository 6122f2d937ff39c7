//! Unbounded first-in first-out queues over a chain of cells that always
//! keeps one empty sentinel at its head.
//!
//! The push and pop algorithms are written once, as decision machines
//! ([`protocol`]) that name one shared-memory access at a time. [`memory`]
//! says what each access does to the shared memory, [`arena`] does it,
//! [`engine`] advances an operation by one access, and [`crowd`] holds a
//! queue with any number of operations in flight. [`lq`], [`crs_queue`] and
//! [`he_queue`] are the three lock-free variants, run one operation after
//! the other; [`lock_queue`] is the baseline.
//!
//! What is proved: every access keeps the memory well formed, whoever makes
//! it ([`soundness`], [`laws`]); an operation that runs alone does what its
//! contract says and ends ([`solo`]); in every interleaving of pushes and
//! pops no access is refused, each pop returns the item it claimed, and
//! under deferred reclamation no pop meets a released cell ([`world`],
//! [`interleave`], [`stable`]); and with one producer and one consumer no
//! operation meets one, whatever the reclamation ([`lone`]).

pub mod arena;
pub mod crowd;
pub mod crs_queue;
pub mod engine;
pub mod he_queue;
pub mod interleave;
pub mod laws;
pub mod lock_queue;
pub mod lone;
pub mod lq;
pub mod memory;
pub mod node;
pub mod protocol;
pub mod solo;
pub mod soundness;
pub mod stable;
pub mod world;
