//! Fixed-size pages for a slab allocator: an occupancy bitmap per page,
//! first-fit slot search, and intrusive lists of pages.

use vstd::prelude::*;

pub mod bitfield;
pub mod layout;
pub mod list;
pub mod pages;

verus! {

/// Size in bytes of an object page, which is also its alignment.
pub const OBJECT_PAGE_SIZE: usize = 4096;

/// Bytes at the end of a page that hold its two links, of 8 bytes each, and
/// the 8 words of its bitmap, and so are not available for objects.
pub const OBJECT_PAGE_METADATA_OVERHEAD: usize = 2 * 8 + 8 * 8;

/// Why a pointer could not be given back to a page.
#[derive(Clone, Copy, Debug, PartialEq, Eq)]
pub enum AllocationError {
    /// The pointer does not lie at a multiple of the object size from the
    /// start of its page.
    InvalidLayout,
    /// The slot that the pointer addresses is not marked allocated.
    NotAllocated,
}

} // verus!
