//! A bounded brute-force nonce search with centralized work distribution.
//!
//! The search space `[search_start, search_end)` is partitioned into chunks
//! held by a work queue; a worker repeatedly withdraws a chunk, hashes each
//! nonce in it, counts every hash, and records the nonces whose digest clears
//! the difficulty threshold.  A cooperative stop flag ends the search early
//! once enough solutions are in hand, and the final report is sorted by nonce
//! and truncated so that its contents do not depend on discovery order.

pub mod chunk;
pub mod digest;
pub mod engine;
pub mod float_safety;
pub mod int_safety;
pub mod queue;
pub mod solution;

pub use chunk::Work;
pub use solution::Solution;
