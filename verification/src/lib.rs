//! Small systems building blocks with machine-checked contracts.
//!
//! [`bitcask`] is a log-structured key-value engine: an append-only record
//! log, the binary record format, and the in-memory index rebuilt from it.
//! [`rayon`] holds the job primitives of a fork-join thread pool.

pub mod bitcask;
pub mod rayon;
