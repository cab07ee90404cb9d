//! The kernel's global allocator hands out whole physical pages.
use vstd::prelude::*;
use crate::riscv::PGSIZE;

verus! {

/// The kernel heap allocator: every allocation is one physical page.
pub struct Allocator;

impl Allocator {
    /// Whether a request for `size` bytes aligned to `align` gets a page
    /// from the page allocator; any other request gets a null pointer.
    pub fn serves(&self, size: usize, align: usize) -> (r: bool)
        ensures
            r == (size <= PGSIZE && align <= PGSIZE),
    {
        size as u64 <= PGSIZE && align as u64 <= PGSIZE
    }
}

} // verus!
