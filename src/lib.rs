//! A per-connection task bridge for stream filters, with the echo filter as its task body.
//!
//! The host proxy drives connection I/O through callbacks. Each connection's filter logic is a
//! task whose only suspension point is "await the next chunk"; the [`executor::Executor`] owns
//! the tasks, keyed by connection, and resumes one of them once per delivered chunk.

pub mod chunk;
pub mod task;
pub mod executor;
pub mod laws;
