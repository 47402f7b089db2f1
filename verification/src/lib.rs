//! Storage-engine core of a small relational database: fixed-size pages, a
//! disk-backed buffer pool with LRU-K replacement, and the catalog, planner
//! and statistics types that sit on top of it.

pub mod buffer;
pub mod catalog;
pub mod common;
pub mod planner;
pub mod primer;
pub mod storage;
