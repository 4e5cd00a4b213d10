//! An in-memory key-value store with per-entry deadlines, counters and
//! a deadline index from which due entries are purged.

pub mod deadlines;
pub mod error;
pub mod key;
pub mod laws;
pub mod storage;
pub mod table;
pub mod value;
