//! A one-way flag shared between threads.

use std::sync::atomic::AtomicBool;
use std::sync::atomic::Ordering;
use vstd::prelude::*;

verus! {

/// A flag that starts unset and is set once a job has run.
///
/// A latch is shared between threads, so what [`probe`](Latch::probe)
/// returns depends on what the other holders have done; no contract speaks
/// of it.
pub struct Latch {
    b: AtomicBool,
}

impl Latch {
    /// A latch that is not set.
    pub fn new() -> Latch {
        Latch { b: AtomicBool::new(false) }
    }

    /// Sets the latch.
    pub fn set(&self) {
        self.b.store(true, Ordering::SeqCst);
    }

    /// Whether the latch has been seen set.
    pub fn probe(&self) -> bool {
        self.b.load(Ordering::SeqCst)
    }
}

} // verus!
