//! Splitting work for parallel iteration.

pub mod len;
