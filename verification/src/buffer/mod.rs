//! The buffer pool: pages and the frames that hold them.

pub mod buffer_pool;
pub mod frame_table;
pub mod page;
pub mod pool_laws;
pub mod pool_state;
pub mod replacer;

pub use buffer_pool::AccessMode;
pub use buffer_pool::BufferPoolManager;
pub use buffer_pool::PageGuard;
pub use frame_table::FrameTable;
pub use page::Page;
pub use page::PageData;
pub use page::PageId;
pub use page::BUSTUBX_PAGE_SIZE;
pub use page::INVALID_PAGE_ID;
pub use pool_laws::PoolOp;
pub use pool_state::BufferPoolError;
pub use pool_state::PoolView;
pub use replacer::LruKReplacer;
