//! Virtual-memory bootstrap layer for a paged, privilege-separated kernel:
//! a bitmap-backed physical page allocator, a two-level hardware page-table
//! codec, address-space management, and the boot-time sequencing that
//! identity-maps the running kernel before translation is enabled.

pub mod mem;
pub mod mmu;
pub mod page_allocator;
pub mod stream;
pub mod tagged;
pub mod page_tables;
pub mod pte;

use vstd::prelude::*;

verus! {

/// Fixed size of one physical or virtual page, in bytes.
pub const PAGE_SIZE: usize = 4096;

/// Number of entries in one page table; each entry is a 32-bit word, so a
/// table of this many entries occupies exactly one physical page.
pub const PAGE_TABLE_SIZE: usize = PAGE_SIZE / 4;

} // verus!
