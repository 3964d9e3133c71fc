//! Where the kernel's heap lies, and how it comes to be mapped.

use vstd::prelude::*;
use crate::loader::{frames_spent, lemma_taken_stays, taken_since};
use crate::shared::addr::VirtAddr;
use crate::shared::allocator::{free_bytes, FixedSizeBlockAllocator, FreeRegion};
use crate::shared::page_table::{same_page, AddressSpace, MapError};
use crate::shared::VIRT_MAPPING_OFFSET;

verus! {

/// The virtual address where the heap starts.
pub const HEAP_START: u64 = 0x_7777_7777_0000;

/// The size of the heap in bytes: 100 KiB.
pub const HEAP_SIZE: u64 = 100 * 1024;

/// The number of pages of the heap.
pub const HEAP_PAGES: u64 = 25;

/// The virtual address of page `i` of the heap.
pub open spec fn heap_page(i: int) -> VirtAddr {
    VirtAddr((HEAP_START + 4096 * i) as u64)
}

/// The first `n` pages of the heap are mapped, and no two to the same frame
/// as far as the frames named by `frames` tell: page `i` is mapped to
/// `frames[i]`.
pub open spec fn heap_mapped(space: AddressSpace, frames: Seq<u64>, n: int) -> bool {
    forall|i: int| 0 <= i < n ==> space.translation(#[trigger] heap_page(i)) == Some(frames[i])
}

proof fn lemma_heap_pages_apart(i: int, j: int)
    requires
        0 <= i < j < HEAP_PAGES,
    ensures
        !same_page(heap_page(i).0, heap_page(j).0),
{
    let a = heap_page(i).0;
    let b = heap_page(j).0;
    assert((a as int / 4096) == (HEAP_START as int / 4096) + i);
    assert((b as int / 4096) == (HEAP_START as int / 4096) + j);
    assert((a as int / 4096) % 512 != (b as int / 4096) % 512);
}

/// The address `other` lies in none of the first `n` pages of the heap.
pub open spec fn outside_heap(other: u64, n: int) -> bool {
    forall|i: int| 0 <= i < n ==> !same_page(other, (#[trigger] heap_page(i)).0)
}

/// The mapping of the heap stopped at page `k` with the error `e`: the pages
/// before it are mapped, nothing else has changed since `before`, and for
/// page `k` no frame was left, or a frame was there and the page was mapped
/// already, or the tables that it lacks could not be supplied.
pub open spec fn heap_stopped(before: AddressSpace, after: AddressSpace, k: int, e: MapError) -> bool {
    &&& forall|i: int| 0 <= i < k ==> after.translation(#[trigger] heap_page(i)) is Some
    &&& forall|other: VirtAddr|
        outside_heap(other.0, k) ==> #[trigger] after.translation(other) == before.translation(other)
    &&& {
        ||| e == MapError::OutOfMemory && frames_spent(after)
        ||| after.cursor() <= after.frames().len() && after.translation(heap_page(k)) is Some && e
            == MapError::MappingExists
        ||| after.cursor() <= after.frames().len() && after.translation(heap_page(k)) is None
            && after.supply(heap_page(k), VIRT_MAPPING_OFFSET) == Some(e)
    }
}

/// Maps the pages of the heap, each to a frame that the allocator hands out
/// for it, reaching new tables through the direct map, and gives the heap
/// to `heap`. Returns the frames that back the pages, in page order.
///
/// Stops at the first page for which no frame is left, which is mapped
/// already, or whose tables cannot be supplied, and leaves the heap as it
/// was; the pages before it stay mapped. Fails with `OutOfMemory`, and
/// changes nothing, on a machine whose addresses end below the heap. No
/// address outside the heap translates otherwise than before.
pub fn init_heap(space: &mut AddressSpace, heap: &mut FixedSizeBlockAllocator) -> (r: Result<
    Vec<u64>,
    MapError,
>)
    requires
        old(space).wf(),
        old(heap).wf(),
    ensures
        final(space).wf(),
        final(space).root_frame() == old(space).root_frame(),
        final(space).frame_allocator().map() == old(space).frame_allocator().map(),
        final(space).frame_allocator().offset() == old(space).frame_allocator().offset(),
        final(space).cursor() >= old(space).cursor(),
        forall|other: VirtAddr|
            outside_heap(other.0, HEAP_PAGES as int) ==> #[trigger] final(space).translation(other)
                == old(space).translation(other),
        forall|other: VirtAddr|
            old(space).translation(other) is Some ==> #[trigger] final(space).translation(other)
                == old(space).translation(other),
        match r {
            Ok(frames) => {
                &&& HEAP_START + HEAP_SIZE < usize::MAX
                &&& frames@.len() == HEAP_PAGES
                &&& heap_mapped(*final(space), frames@, HEAP_PAGES as int)
                &&& forall|i: int|
                    0 <= i < HEAP_PAGES ==> old(space).translation(#[trigger] heap_page(i)) is None
                &&& forall|i: int|
                    0 <= i < HEAP_PAGES ==> taken_since(*old(space), *final(space), #[trigger] frames@[i])
                &&& final(heap).wf()
                &&& final(heap)@.lists == old(heap)@.lists
                &&& final(heap)@.regions == old(heap)@.regions.push(
                    FreeRegion { start: HEAP_START as usize, size: HEAP_SIZE as usize },
                )
                &&& free_bytes(final(heap)@) == free_bytes(old(heap)@) + HEAP_SIZE
            },
            Err(e) => {
                &&& *final(heap) == *old(heap)
                &&& if HEAP_START + HEAP_SIZE >= usize::MAX {
                    e == MapError::OutOfMemory && final(space).cursor() == old(space).cursor()
                } else {
                    exists|k: int|
                        0 <= k < HEAP_PAGES && #[trigger] heap_stopped(*old(space), *final(space), k, e)
                }
            },
        },
{
    if usize::MAX as u64 <= HEAP_START + HEAP_SIZE {
        return Err(MapError::OutOfMemory);
    }
    let mut frames: Vec<u64> = Vec::new();
    let mut i: u64 = 0;
    while i < HEAP_PAGES
        invariant
            HEAP_START + HEAP_SIZE < usize::MAX,
            space.wf(),
            space.root_frame() == old(space).root_frame(),
            space.frame_allocator().map() == old(space).frame_allocator().map(),
            space.frame_allocator().offset() == old(space).frame_allocator().offset(),
            space.cursor() >= old(space).cursor(),
            i <= HEAP_PAGES,
            frames@.len() == i,
            heap_mapped(*space, frames@, i as int),
            forall|other: VirtAddr|
                outside_heap(other.0, i as int) ==> #[trigger] space.translation(other) == old(
                    space,
                ).translation(other),
            forall|j: int| 0 <= j < i ==> old(space).translation(#[trigger] heap_page(j)) is None,
            forall|j: int| 0 <= j < i ==> taken_since(*old(space), *space, #[trigger] frames@[j]),
            *heap == *old(heap),
        decreases HEAP_PAGES - i,
    {
        let ghost unallocated = *space;
        if space.next_frame_index() == usize::MAX {
            assert(heap_stopped(*old(space), *space, i as int, MapError::OutOfMemory));
            proof {
                lemma_heap_keeps_mappings(*old(space), *space, i as int);
            }
            return Err(MapError::OutOfMemory);
        }
        let frame = match space.allocate_frame() {
            Some(frame) => frame,
            None => {
                assert forall|other: VirtAddr| #[trigger]
                    space.translation(other) == unallocated.translation(other) by {}
                assert(heap_stopped(*old(space), *space, i as int, MapError::OutOfMemory));
                proof {
                    lemma_heap_keeps_mappings(*old(space), *space, i as int);
                }
                return Err(MapError::OutOfMemory);
            },
        };
        let ghost before = *space;
        assert forall|other: VirtAddr| #[trigger]
            before.translation(other) == unallocated.translation(other) by {}
        let page = VirtAddr(HEAP_START + 4096 * i);
        assert(page == heap_page(i as int));
        proof {
            assert forall|j: int| 0 <= j < i implies !same_page(page.0, (#[trigger] heap_page(j)).0) by {
                lemma_heap_pages_apart(j, i as int);
            }
            assert(outside_heap(page.0, i as int));
            assert forall|j: int| 0 <= j < i implies taken_since(
                *old(space),
                before,
                #[trigger] frames@[j],
            ) by {
                lemma_taken_stays(*old(space), unallocated, before, frames@[j]);
            }
            assert(old(space).frames() == unallocated.frames());
            assert(old(space).frames()[unallocated.cursor()] == frame);
            assert(taken_since(*old(space), before, frame));
        }
        match space.map_address_with_offset(page, frame, VIRT_MAPPING_OFFSET) {
            Ok(()) => {},
            Err(e) => {
                proof {
                    assert forall|other: VirtAddr| #[trigger]
                        space.translation(other) == before.translation(other) by {}
                    assert(space.frames() == before.frames());
                    assert(heap_stopped(*old(space), *space, i as int, e));
                    lemma_heap_keeps_mappings(*old(space), *space, i as int);
                }
                return Err(e);
            },
        }
        let ghost earlier = frames@;
        frames.push(frame);
        proof {
            assert forall|j: int| 0 <= j < i + 1 implies space.translation(
                #[trigger] heap_page(j),
            ) == Some(frames@[j]) by {
                if j < i {
                    lemma_heap_pages_apart(j, i as int);
                    assert(frames@[j] == earlier[j]);
                    assert(before.translation(heap_page(j)) == Some(earlier[j]));
                }
            }
            assert forall|other: VirtAddr| outside_heap(other.0, i + 1) implies #[trigger]
                space.translation(other) == old(space).translation(other) by {
                assert(!same_page(other.0, heap_page(i as int).0));
                assert(outside_heap(other.0, i as int));
            }
            assert forall|j: int| 0 <= j < i + 1 implies taken_since(
                *old(space),
                *space,
                #[trigger] frames@[j],
            ) by {
                if j < i {
                    assert(frames@[j] == earlier[j]);
                }
                lemma_taken_stays(*old(space), before, *space, frames@[j]);
            }
        }
        i = i + 1;
    }
    proof {
        lemma_heap_keeps_mappings(*old(space), *space, HEAP_PAGES as int);
    }
    heap.init(HEAP_START as usize, HEAP_SIZE as usize);
    Ok(frames)
}

/// Where the first `n` pages of the heap were unmapped and nothing outside
/// them has changed, every mapping that was there is kept.
proof fn lemma_heap_keeps_mappings(start: AddressSpace, space: AddressSpace, n: int)
    requires
        forall|other: VirtAddr|
            outside_heap(other.0, n) ==> #[trigger] space.translation(other) == start.translation(other),
        forall|j: int| 0 <= j < n ==> start.translation(#[trigger] heap_page(j)) is None,
    ensures
        forall|other: VirtAddr|
            start.translation(other) is Some ==> #[trigger] space.translation(other) == start.translation(
                other,
            ),
        forall|other: VirtAddr|
            outside_heap(other.0, HEAP_PAGES as int) && n <= HEAP_PAGES ==> #[trigger] space.translation(
                other,
            ) == start.translation(other),
{
    assert forall|other: VirtAddr| start.translation(other) is Some implies #[trigger] space.translation(
        other,
    ) == start.translation(other) by {
        if !outside_heap(other.0, n) {
            let j = choose|j: int| 0 <= j < n && same_page(other.0, (#[trigger] heap_page(j)).0);
            assert(start.translation(heap_page(j)) is None);
            assert(start.translation(other) == start.translation(heap_page(j)));
        }
    }
}

} // verus!
