//! The kernel's view of physical memory: its own frame allocator, and the
//! translation of addresses through the active page tables.

use vstd::prelude::*;
use crate::shared::addr::VirtAddr;
use crate::shared::frame_allocator::{frames_of, MemoryMap};
use crate::shared::page_table::{page_offset, word_addr, AddressSpace, ADDR_MASK};
use crate::shared::VIRT_MAPPING_OFFSET;

verus! {

/// The physical address of the root page table that the register CR3 names.
pub fn level_4_table_frame(cr3: u64) -> (frame: u64)
    ensures
        frame == word_addr(cr3),
{
    cr3 & ADDR_MASK
}

/// The virtual address at which the direct map shows the root page table
/// that the register CR3 names.
pub fn active_level_4_table(cr3: u64) -> (addr: u64)
    ensures
        addr == VIRT_MAPPING_OFFSET + word_addr(cr3),
{
    VIRT_MAPPING_OFFSET + crate::shared::page_table::PageTableEntry(cr3).addr()
}

/// The physical address that `addr` is mapped to: the frame of its page
/// plus its offset inside the page. `None` where the page is not mapped.
pub fn translate_addr(space: &AddressSpace, addr: VirtAddr) -> (phys: Option<u64>)
    requires
        space.wf(),
    ensures
        phys == (match space.translation(addr) {
            Some(frame) => Some((frame + addr.0 % 4096) as u64),
            None => None,
        }),
{
    match space.translate(addr) {
        Some(frame) => Some(frame + page_offset(addr) as u64),
        None => None,
    }
}

/// The kernel's frame allocator: it walks the memory map from its first
/// free frame.
pub struct FrameAllocator {
    pub memory_map: MemoryMap,
    next_free_frame: usize,
}

impl FrameAllocator {
    /// The memory map that the allocator walks.
    pub closed spec fn map(&self) -> MemoryMap {
        self.memory_map
    }

    /// The number of the next frame to hand out.
    pub closed spec fn cursor(&self) -> usize {
        self.next_free_frame
    }

    /// Every frame the allocator can ever hand out, in the order of handing
    /// out.
    pub open spec fn usable_frames(&self) -> Seq<u64> {
        frames_of(self.map().regions())
    }

    /// An allocator over `memory_map` that starts with the first free frame.
    pub fn new(memory_map: MemoryMap) -> (fa: FrameAllocator)
        ensures
            fa.map() == memory_map,
            fa.cursor() == 0,
    {
        FrameAllocator { memory_map, next_free_frame: 0 }
    }

    /// Hands out the next frame, or `None` once every frame has been handed
    /// out. The cursor advances either way.
    pub fn allocate_frame(&mut self) -> (frame: Option<u64>)
        requires
            old(self).map().wf(),
            old(self).cursor() < usize::MAX,
        ensures
            final(self).map() == old(self).map(),
            final(self).cursor() == old(self).cursor() + 1,
            frame == (if old(self).cursor() < old(self).usable_frames().len() {
                Some(old(self).usable_frames()[old(self).cursor() as int])
            } else {
                None
            }),
    {
        let walker = crate::shared::frame_allocator::FrameAllocator::new(
            self.memory_map,
            VIRT_MAPPING_OFFSET,
            self.next_free_frame,
        );
        let frame = walker.frame_at(self.next_free_frame);
        self.next_free_frame = self.next_free_frame + 1;
        frame
    }
}

} // verus!
