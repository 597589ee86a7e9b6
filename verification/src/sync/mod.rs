//! Synchronization primitives.
pub mod list_semaphore;
pub mod oneshot;
pub mod semaphore;
