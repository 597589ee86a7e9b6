//! A single-threaded asynchronous runtime: the verified state machines behind
//! its synchronization primitives, timers, task scheduling and I/O readiness.

pub mod clock;
pub mod executor;
pub mod list;
pub mod raw_task;
pub mod reactor;
pub mod runtime;
pub mod sync;
pub mod sys;
pub mod task;
pub mod tick_reactor;
pub mod time;
pub mod waker;
