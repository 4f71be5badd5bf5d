//! The parallel-compute core of a deterministic exchange engine.
//!
//! Commands that touch many users run in two steps: a read-only scan over the users, which may be
//! spread over worker threads, and a serial application of what the scan found. The engine is
//! replicated, so every node has to reach the same state whatever number of worker threads it
//! runs: a scan returns its results in ascending order of the users' ids, and the configuration
//! of the [`ComputePool`](processors::parallel::ComputePool) decides how fast they come, never
//! what they are.

pub mod common;
pub mod processors;
pub mod text;
