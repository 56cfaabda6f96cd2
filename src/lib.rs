//! Storage-engine core: a buffer pool over a checksummed paged file, with an LRU
//! replacer and a bitmap-backed page-identifier allocator.

pub mod bitmap;
pub mod buffer_pool;
pub mod checksum;
pub mod config;
pub mod disk_manager;
pub mod error;
pub mod header_page;
pub mod reinterpret;
pub mod reserved_page;
pub mod replacer;
pub mod rid;
pub mod selector;
pub mod table_page;
pub mod tuple;
pub mod types;
