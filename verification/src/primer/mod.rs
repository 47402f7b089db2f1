//! Self-contained algorithms used for statistics.

pub mod hyperloglog;

pub use hyperloglog::HashKey;
pub use hyperloglog::HyperLogLog;
