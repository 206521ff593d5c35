//! The pieces of a fork-join pool that do not depend on threads: a unit of
//! work that stores its result, the latch that announces it, and the cost
//! estimate that decides how far work is split.

pub mod job;
pub mod latch;
pub mod par_iter;
