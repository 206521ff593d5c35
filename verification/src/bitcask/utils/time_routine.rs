//! The clock.

use std::time::SystemTime;
use std::time::UNIX_EPOCH;
use vstd::prelude::*;

verus! {

/// Reads the wall clock: whole seconds since the Unix epoch.
///
/// Trusted: calls `SystemTime::now` and measures it against `UNIX_EPOCH`.
/// Nothing is promised about the value; a clock set before the epoch reads
/// as zero.
#[verifier::external_body]
pub(crate) fn time_now() -> (now: u64) {
    SystemTime::now().duration_since(UNIX_EPOCH).map_or(0, |d| d.as_secs())
}

} // verus!
