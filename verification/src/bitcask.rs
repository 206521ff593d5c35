//! A single-node key-value engine over an append-only log of records.
//!
//! The engine works on the bytes of its segments and never touches a file
//! itself: whoever embeds it loads the segment bytes, and performs on the
//! files the steps that the engine's journal lists.

pub mod config;
pub mod dispatch;
pub mod ds;
pub mod entry_type;
pub mod journal;
pub mod kv;
pub mod loading;
pub mod model;
pub mod segment_name;
pub mod storage;
pub mod theorems;
pub mod utils;
