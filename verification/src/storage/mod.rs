//! The backing page store.

pub mod disk_manager;
pub mod disk_scheduler;

pub use disk_manager::DiskManager;
pub use disk_manager::StorageError;
pub use disk_scheduler::Completion;
pub use disk_scheduler::DiskOperation;
pub use disk_scheduler::DiskRequest;
pub use disk_scheduler::DiskScheduler;
