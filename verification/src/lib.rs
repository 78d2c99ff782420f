//! A work-stealing thread pool.
//!
//! Tasks enter a pool by a queue that all workers share. Every worker has a queue of its own
//! besides. It tops that off from the shared queue, runs what it has, and when it has nothing left
//! steals from the other workers. A worker that finds no task anywhere sleeps until it is woken,
//! or, when the pool shuts down, leaves.
//!
//! This crate decides; it starts no thread and blocks on no lock. Whoever runs a worker's thread
//! polls its [`worker::WorkerContext`], runs the task that it names, and puts the thread to sleep
//! when it says so. A task is known here by its number.
//!
//! - [`pool`]: the pool and its builder.
//! - [`seg`]: a plainer pool.
//! - [`worker`]: one worker of either.
//! - [`phase`]: the decisions of a worker's loop.
//! - [`numbering`]: the numbers by which tasks are known.
//! - [`passes`]: what a pass through that loop does.
//! - [`queues`]: what is relied on of the queues of the `crossbeam` crate.
//! - [`model`]: the pool as a whole, one step at a time.
//! - [`laws`]: what holds of it in every state.
//! - [`scene`]: why the code takes no other steps.

pub mod laws;
pub mod model;
pub mod numbering;
pub mod passes;
pub mod phase;
pub mod pool;
pub mod queues;
pub mod scene;
pub mod seg;
pub mod worker;

pub use crate::pool::{ThreadPool, ThreadPoolBuilder};
