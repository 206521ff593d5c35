//! The record format and the segments that hold records.

pub mod db_file;
pub mod entry;
