//! A load balanced thread pool.
//!
//! The pool keeps its workers in a binary heap ordered by the number of
//! pending tasks of each worker. A new job goes to the least loaded worker,
//! whose load is then raised; when a worker reports that it finished a job,
//! its load is lowered again. Both updates restore the heap order.
//!
//! This crate holds the verified part: jobs, messages, workers, the worker
//! heap and the scheduling and balancing decisions. Spawning and joining
//! threads and sharing the pool behind a lock is left to the caller.

pub mod channel;
pub mod job;
pub mod message;
pub mod pool;
pub mod threadpool;
pub mod worker;
