//! Helpers shared by the storage layers: the checksum and the clock.

pub mod hash_routine;
pub mod time_routine;
