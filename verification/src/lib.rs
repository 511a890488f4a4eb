//! A scalable approximate counter with a hard global ceiling.
//!
//! Many worker threads share one numeric budget. Each registered thread holds
//! a private slot with a quota (`limit`) that it can spend (`used`) without
//! synchronization; only when the quota is exhausted does the thread fall back
//! to a lock-protected slow path that folds its slot back into the global pool
//! and re-derives a fresh quota. Three read strategies (exact, eventual,
//! quiescent) report the aggregate value at different consistency/cost
//! trade-offs.
//!
//! This crate verifies the sequential core of the algorithm: every operation
//! is an atomic step on the shared state (in the running system, fast-path
//! steps touch only the calling thread's slot and every other step runs under
//! the global lock, so any concurrent execution is an interleaving of these
//! steps). The harness that spawns threads around this core lives outside the
//! library.

pub mod counter;
pub mod laws;
pub mod model;

pub use counter::{
    add_count, count_register_thread, count_unregister_thread, sub_count, ConsistencyModel,
    GlobalData,
};
pub use model::THREADS_MAX;
