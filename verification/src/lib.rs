//! Data-parallel reduction over an in-memory sequence: partition a slice into
//! chunks, fold a caller-supplied operation over each chunk into a worker-local
//! accumulator, and combine the per-worker accumulators into a final value.
//!
//! This crate holds the verified core: the configuration, the chunk cursor
//! that yields non-overlapping contiguous ranges covering the input exactly
//! once, the fold semantics of a run, and the example operations. Thread
//! dispatch itself lives outside the verified core; the engine here executes
//! the same partition, dispatch and reduce cycle synchronously, and its
//! contracts pin the result as a function of the inputs alone.

pub mod chunks;
pub mod config;
pub mod engine;
pub mod examples;
pub mod laws;
pub mod ops;

pub use chunks::ChunkCursor;
pub use config::Config;
pub use engine::Chunker;
pub use engine::run;
pub use engine::run_mut;
pub use ops::Accumulate;
pub use ops::AccumulateMut;
pub use ops::NoProgress;
pub use ops::Progress;
pub use ops::Reduce;
pub use config::DEFAULT_BAR_STEP;
pub use config::DEFAULT_CHUNK_SIZE;
