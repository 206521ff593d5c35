//! In-memory data structures.

pub mod hash;
