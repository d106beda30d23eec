//! Model of physically contiguous DMA memory backed by huge pages.
//!
//! A real allocator pins huge pages and learns their physical addresses from
//! the kernel's page map; that is I/O and lives in the harness.  The model
//! places each region at the next free huge page of a flat physical space and
//! maps it at a fixed offset into the virtual space, so that regions are
//! disjoint, page-aligned, and translation is exact arithmetic.

use vstd::prelude::*;

verus! {

/// Bytes of one huge page.
pub const HUGE_PAGE_SIZE: u32 = 0x200000;

/// The model's physical space holds this many huge pages.
pub const MAX_HUGE_PAGES: u32 = 0x10000;

/// Virtual addresses of DMA regions sit at this fixed offset above their
/// physical addresses in the model.
pub const DMA_VIRT_BASE: u64 = 0x7F0000000000;

/// Huge pages a region of `size` bytes occupies.
pub open spec fn pages_of(size: u32) -> int {
    (size - 1) / (HUGE_PAGE_SIZE as int) + 1
}

/// One physically contiguous, page-aligned, pinned memory region.
pub struct DmaRegion {
    /// Virtual base address.
    pub virt: u64,
    /// Physical base address.
    pub phys: u64,
    /// Usable bytes from the base.
    pub size: u32,
}

impl DmaRegion {
    /// A region the model allocator hands out: page-aligned, inside the
    /// physical space, mapped at the fixed virtual offset.
    pub open spec fn wf(&self) -> bool {
        &&& self.phys % (HUGE_PAGE_SIZE as u64) == 0
        &&& self.phys + self.size <= MAX_HUGE_PAGES as int * HUGE_PAGE_SIZE as int
        &&& self.virt == DMA_VIRT_BASE + self.phys
    }
}

/// Translate a virtual address inside a DMA region to its physical address.
pub fn virt_to_phys(virt: u64) -> (r: u64)
    requires
        virt >= DMA_VIRT_BASE,
    ensures
        r == virt - DMA_VIRT_BASE,
{
    virt - DMA_VIRT_BASE
}

/// Allocate `size` bytes of DMA memory at the huge page `*huge_page_id`,
/// bumping the id past the pages the region occupies.  Returns `None` once
/// the model's physical space is exhausted.
pub fn allocate_dma(huge_page_id: &mut u32, size: u32) -> (r: Option<DmaRegion>)
    requires
        size > 0,
    ensures
        r is Some <==> *old(huge_page_id) + pages_of(size) <= MAX_HUGE_PAGES,
        match r {
            Some(region) => {
                &&& region.wf()
                &&& region.size == size
                &&& region.phys == *old(huge_page_id) as int * HUGE_PAGE_SIZE as int
                &&& *final(huge_page_id) == *old(huge_page_id) + pages_of(size)
            },
            None => *final(huge_page_id) == *old(huge_page_id),
        },
{
    let pages: u32 = (size - 1) / HUGE_PAGE_SIZE + 1;
    if *huge_page_id >= MAX_HUGE_PAGES || pages > MAX_HUGE_PAGES - *huge_page_id {
        return None;
    }
    let id = *huge_page_id;
    proof {
        assert(id as int * (HUGE_PAGE_SIZE as int) < 0x10000 * 0x200000) by (nonlinear_arith)
            requires id < 0x10000, HUGE_PAGE_SIZE == 0x200000;
    }
    let phys: u64 = (id as u64) * (HUGE_PAGE_SIZE as u64);
    proof {
        assert(phys % (HUGE_PAGE_SIZE as u64) == 0) by (nonlinear_arith)
            requires phys == id as int * HUGE_PAGE_SIZE as int;
        assert(phys + size <= MAX_HUGE_PAGES as int * HUGE_PAGE_SIZE as int) by (nonlinear_arith)
            requires
                phys == id as int * HUGE_PAGE_SIZE as int,
                id + pages <= MAX_HUGE_PAGES,
                pages == (size - 1) / (HUGE_PAGE_SIZE as int) + 1,
                size > 0,
                HUGE_PAGE_SIZE == 0x200000;
    }
    *huge_page_id = id + pages;
    Some(DmaRegion { virt: DMA_VIRT_BASE + phys, phys, size })
}

} // verus!
