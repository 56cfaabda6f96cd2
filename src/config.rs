//! Fixed parameters of the storage layout.
use vstd::prelude::*;

verus! {

/// Identifier of a page in the database file.
pub type PageId = i32;

/// Marks the absence of a page.
pub const INVALID_PAGE_ID: PageId = -1;

/// The smallest identifier of a real page; anything below it is rejected.
pub const HEADER_PAGE_ID: PageId = 1;

/// Size of a page in bytes, on disk and in memory.
pub const PAGE_SIZE: usize = 4096;

} // verus!
