//! The boot loader's work between the firmware and the kernel: the memory
//! map, the direct map of physical memory, the kernel image, the framebuffer,
//! the stack, and the boot information.

use vstd::prelude::*;
use crate::shared::addr::{accepted_by_check, sign_extend, VirtAddr};
use crate::shared::addr::lemma_sign_extend_indices;
use crate::shared::frame_allocator::{
    FrameAllocator, MemoryMap, MemoryRegion, MemoryType, MAX_MEMORY_MAP_SIZE, MEMORY_MAP_PAGES,
};
use crate::shared::logger::FrameBufferInfo;
use crate::shared::page_table::{
    align_down, align_down_u64, is_frame_addr, page_base, same_page, AddressSpace, MapError,
};
use crate::shared::VIRT_MAPPING_OFFSET;

verus! {

/// One entry of the firmware's memory map: the firmware's code for the kind
/// of memory, the physical start, and the number of 4 KiB pages.
#[derive(Clone, Copy, PartialEq, Eq, Structural, Debug)]
pub struct MemoryDescriptor {
    pub ty: u32,
    pub phys_start: u64,
    pub page_count: u64,
}

/// The firmware's code for reserved memory.
pub const UEFI_RESERVED: u32 = 0;

/// The firmware's code for the loader's code.
pub const UEFI_LOADER_CODE: u32 = 1;

/// The firmware's code for the loader's data.
pub const UEFI_LOADER_DATA: u32 = 2;

/// The firmware's code for boot-services code.
pub const UEFI_BOOT_SERVICES_CODE: u32 = 3;

/// The firmware's code for boot-services data.
pub const UEFI_BOOT_SERVICES_DATA: u32 = 4;

/// The firmware's code for runtime-services code.
pub const UEFI_RUNTIME_SERVICES_CODE: u32 = 5;

/// The firmware's code for runtime-services data.
pub const UEFI_RUNTIME_SERVICES_DATA: u32 = 6;

/// The firmware's code for free memory.
pub const UEFI_CONVENTIONAL: u32 = 7;

/// The firmware's code for memory with errors.
pub const UEFI_UNUSABLE: u32 = 8;

/// The firmware's code for ACPI tables that may be reclaimed.
pub const UEFI_ACPI_RECLAIM: u32 = 9;

/// The firmware's code for memory that ACPI keeps.
pub const UEFI_ACPI_NON_VOLATILE: u32 = 10;

/// The firmware's code for memory-mapped I/O.
pub const UEFI_MMIO: u32 = 11;

/// The firmware's code for the memory-mapped I/O port space.
pub const UEFI_MMIO_PORT_SPACE: u32 = 12;

/// The firmware's code for processor firmware code.
pub const UEFI_PAL_CODE: u32 = 13;

/// The firmware's code for persistent memory.
pub const UEFI_PERSISTENT_MEMORY: u32 = 14;

/// The firmware's code is one that the loader knows.
pub open spec fn known_memory_type(code: u32) -> bool {
    code <= 14
}

/// The kind of memory that a firmware code stands for.
pub open spec fn converted_type(code: u32) -> MemoryType {
    if code == UEFI_MMIO_PORT_SPACE || code == UEFI_MMIO || code == UEFI_RESERVED || code
        == UEFI_UNUSABLE {
        MemoryType::Reserved
    } else if code == UEFI_PERSISTENT_MEMORY || code == UEFI_CONVENTIONAL || code
        == UEFI_LOADER_DATA || code == UEFI_LOADER_CODE || code == UEFI_BOOT_SERVICES_CODE || code
        == UEFI_BOOT_SERVICES_DATA {
        MemoryType::Free
    } else if code == UEFI_ACPI_NON_VOLATILE || code == UEFI_RUNTIME_SERVICES_CODE || code
        == UEFI_RUNTIME_SERVICES_DATA {
        MemoryType::Acpi1_3
    } else if code == UEFI_ACPI_RECLAIM {
        MemoryType::AcpiReclaim
    } else {
        MemoryType::Acpi1_4
    }
}

/// The region that a firmware descriptor becomes. A descriptor that starts at
/// the physical address 0 is reserved, whatever its kind.
pub open spec fn converted_region(d: MemoryDescriptor) -> MemoryRegion {
    MemoryRegion {
        ty: if d.phys_start == 0 {
            MemoryType::Reserved
        } else {
            converted_type(d.ty)
        },
        addr: d.phys_start,
        page_count: d.page_count as usize,
    }
}

/// The descriptor can be converted: it starts at 0 or is of a known kind, and
/// its page count fits this machine's word.
pub open spec fn convertible(d: MemoryDescriptor) -> bool {
    (d.phys_start == 0 || known_memory_type(d.ty)) && d.page_count <= usize::MAX
}

/// Tells whether the loader knows the firmware's code.
pub fn is_known_memory_type(code: u32) -> (known: bool)
    ensures
        known == known_memory_type(code),
{
    code <= 14
}

/// The kind of memory that a firmware code stands for.
pub fn convert_memory_type(code: u32) -> (ty: MemoryType)
    requires
        known_memory_type(code),
    ensures
        ty == converted_type(code),
{
    if code == UEFI_MMIO_PORT_SPACE || code == UEFI_MMIO || code == UEFI_RESERVED || code
        == UEFI_UNUSABLE {
        MemoryType::Reserved
    } else if code == UEFI_PERSISTENT_MEMORY || code == UEFI_CONVENTIONAL || code
        == UEFI_LOADER_DATA || code == UEFI_LOADER_CODE || code == UEFI_BOOT_SERVICES_CODE || code
        == UEFI_BOOT_SERVICES_DATA {
        MemoryType::Free
    } else if code == UEFI_ACPI_NON_VOLATILE || code == UEFI_RUNTIME_SERVICES_CODE || code
        == UEFI_RUNTIME_SERVICES_DATA {
        MemoryType::Acpi1_3
    } else if code == UEFI_ACPI_RECLAIM {
        MemoryType::AcpiReclaim
    } else {
        MemoryType::Acpi1_4
    }
}

/// Tells whether `init_allocator` can take the descriptors.
pub fn can_convert(descriptors: &Vec<MemoryDescriptor>) -> (ok: bool)
    ensures
        ok == (descriptors@.len() <= MAX_MEMORY_MAP_SIZE && forall|i: int|
            0 <= i < descriptors@.len() ==> convertible(#[trigger] descriptors@[i])),
{
    if descriptors.len() > MAX_MEMORY_MAP_SIZE {
        return false;
    }
    let mut i: usize = 0;
    while i < descriptors.len()
        invariant
            i <= descriptors@.len(),
            forall|j: int| 0 <= j < i ==> convertible(#[trigger] descriptors@[j]),
        decreases descriptors@.len() - i,
    {
        let d = descriptors[i];
        if !(d.phys_start == 0 || is_known_memory_type(d.ty)) || d.page_count > usize::MAX as u64 {
            assert(!convertible(descriptors@[i as int]));
            return false;
        }
        i = i + 1;
    }
    true
}

/// Turns the firmware's memory map into the loader's, entry by entry, and
/// sets up the frame allocator over it: no mapping offset, first frame next.
pub fn init_allocator(descriptors: &Vec<MemoryDescriptor>) -> (r: (FrameAllocator, MemoryMap))
    requires
        descriptors@.len() <= MAX_MEMORY_MAP_SIZE,
        forall|i: int| 0 <= i < descriptors@.len() ==> convertible(#[trigger] descriptors@[i]),
    ensures
        r.1.regions() == Seq::new(descriptors@.len(), |i: int| converted_region(descriptors@[i])),
        r.1.next_free_entry_idx == descriptors@.len(),
        r.0.map() == r.1,
        r.0.offset() == 0,
        r.0.cursor() == 0,
{
    let mut map = MemoryMap::new();
    let mut i: usize = 0;
    while i < descriptors.len()
        invariant
            i <= descriptors@.len() <= MAX_MEMORY_MAP_SIZE,
            forall|j: int| 0 <= j < descriptors@.len() ==> convertible(#[trigger] descriptors@[j]),
            forall|j: int| 0 <= j < i ==> #[trigger] map.entries@[j] == converted_region(descriptors@[j]),
        decreases descriptors@.len() - i,
    {
        let d = descriptors[i];
        assert(convertible(descriptors@[i as int]));
        let ty = if d.phys_start == 0 {
            MemoryType::Reserved
        } else {
            convert_memory_type(d.ty)
        };
        map.entries[i] = MemoryRegion { ty, addr: d.phys_start, page_count: d.page_count as usize };
        i = i + 1;
    }
    map.next_free_entry_idx = descriptors.len() as u64;
    assert(map.regions() =~= Seq::new(
        descriptors@.len(),
        |i: int| converted_region(descriptors@[i]),
    ));
    (FrameAllocator::new(map, 0, 0), map)
}

/// The address of the last frame that the last descriptor describes.
pub fn last_frame_addr(descriptors: &Vec<MemoryDescriptor>) -> (addr: Option<u64>)
    ensures
        addr is Some <==> descriptors@.len() > 0 && descriptors@.last().page_count > 0
            && descriptors@.last().phys_start + (descriptors@.last().page_count - 1) * 4096
            <= u64::MAX,
        addr is Some ==> addr->Some_0 == descriptors@.last().phys_start + (
        descriptors@.last().page_count - 1) * 4096,
{
    if descriptors.len() == 0 {
        return None;
    }
    let last = descriptors[descriptors.len() - 1];
    if last.page_count == 0 {
        return None;
    }
    match (last.page_count - 1).checked_mul(4096) {
        Some(bytes) => last.phys_start.checked_add(bytes),
        None => None,
    }
}

/// What an entry of the firmware's configuration table points to.
#[derive(Clone, Copy, PartialEq, Eq, Structural, Debug)]
pub enum ConfigKind {
    /// The root pointer of ACPI 2.
    Acpi2,
    /// The root pointer of ACPI 1.
    Acpi1,
    /// Anything else.
    Other,
}

/// An entry of the firmware's configuration table.
#[derive(Clone, Copy, PartialEq, Eq, Structural, Debug)]
pub struct ConfigEntry {
    pub kind: ConfigKind,
    pub address: u64,
}

/// The place of the first entry of the kind `kind` from place `from` on, or
/// the length of the table where there is none.
pub open spec fn first_of_kind(entries: Seq<ConfigEntry>, kind: ConfigKind, from: int) -> int
    decreases entries.len() - from,
{
    if from < 0 || from >= entries.len() {
        entries.len() as int
    } else if entries[from].kind == kind {
        from
    } else {
        first_of_kind(entries, kind, from + 1)
    }
}

/// The address of the ACPI root pointer that the configuration table names:
/// that of the first entry for ACPI 2, or without one that of the first
/// entry for ACPI 1. `None` where the table has neither.
pub open spec fn rsdp_of(entries: Seq<ConfigEntry>) -> Option<u64> {
    if first_of_kind(entries, ConfigKind::Acpi2, 0) < entries.len() {
        Some(entries[first_of_kind(entries, ConfigKind::Acpi2, 0)].address)
    } else if first_of_kind(entries, ConfigKind::Acpi1, 0) < entries.len() {
        Some(entries[first_of_kind(entries, ConfigKind::Acpi1, 0)].address)
    } else {
        None
    }
}

fn find_kind(entries: &Vec<ConfigEntry>, kind: ConfigKind) -> (place: usize)
    ensures
        place == first_of_kind(entries@, kind, 0),
        place <= entries@.len(),
        place < entries@.len() ==> entries@[place as int].kind == kind,
{
    let mut i: usize = 0;
    while i < entries.len()
        invariant
            i <= entries@.len(),
            first_of_kind(entries@, kind, 0) == first_of_kind(entries@, kind, i as int),
        decreases entries@.len() - i,
    {
        if entries[i].kind == kind {
            return i;
        }
        i = i + 1;
    }
    i
}

/// Finds the ACPI root pointer in the firmware's configuration table: see
/// `rsdp_of`.
pub fn find_rsdp(entries: &Vec<ConfigEntry>) -> (rsdp: Option<u64>)
    ensures
        rsdp == rsdp_of(entries@),
{
    let acpi2 = find_kind(entries, ConfigKind::Acpi2);
    if acpi2 < entries.len() {
        return Some(entries[acpi2].address);
    }
    let acpi1 = find_kind(entries, ConfigKind::Acpi1);
    if acpi1 < entries.len() {
        return Some(entries[acpi1].address);
    }
    None
}

/// Why the loader could not lay out the kernel's address space.
#[derive(Clone, Copy, PartialEq, Eq, Structural, Debug)]
pub enum LoadError {
    /// The kernel image has a thread-local-storage segment.
    UnsupportedTls,
    /// A virtual address holds data in bits 48 to 63.
    BadVirtualAddress,
    /// An address left the 64-bit range.
    AddressOverflow,
    /// A physical address is not frame-aligned or lies at or above 2^52.
    BadFrame,
    /// The frame allocator has no frame left.
    OutOfMemory,
    /// A mapping could not be made.
    Mapping(MapError),
}

/// Every address that `before` maps is mapped to the same frame by `after`.
pub open spec fn mappings_kept(before: AddressSpace, after: AddressSpace) -> bool {
    forall|other: VirtAddr|
        before.translation(other) is Some ==> #[trigger] after.translation(other)
            == before.translation(other)
}

/// The virtual address of page `i` of a run: the physical address of frame
/// `i` plus `delta`, sign-extended.
pub open spec fn run_page(phys_base: u64, delta: u64, i: int) -> VirtAddr {
    VirtAddr(sign_extend((phys_base + 4096 * i + delta) as u64))
}

/// The physical address of frame `i` of a run.
pub open spec fn run_frame(phys_base: u64, i: int) -> u64 {
    (phys_base + 4096 * i) as u64
}

/// What is wrong with the addresses of page `i` of a run, if anything. With
/// `checked`, a virtual address with data in bits 48 to 63 is refused;
/// without, those bits are dropped.
pub open spec fn run_obstacle(phys_base: u64, delta: u64, i: int, checked: bool) -> Option<
    LoadError,
> {
    if phys_base + 4096 * i + delta > u64::MAX {
        Some(LoadError::AddressOverflow)
    } else if checked && !accepted_by_check((phys_base + 4096 * i + delta) as u64) {
        Some(LoadError::BadVirtualAddress)
    } else if !is_frame_addr((phys_base + 4096 * i) as u64) {
        Some(LoadError::BadFrame)
    } else {
        None
    }
}

/// The first `n` pages of the run are mapped to the run's frames.
pub open spec fn run_mapped(space: AddressSpace, phys_base: u64, delta: u64, n: int) -> bool {
    forall|i: int|
        0 <= i < n ==> space.translation(#[trigger] run_page(phys_base, delta, i)) == Some(
            run_frame(phys_base, i),
        )
}

/// The first `n` pages of the run were not mapped.
pub open spec fn run_unmapped(space: AddressSpace, phys_base: u64, delta: u64, n: int) -> bool {
    forall|i: int| 0 <= i < n ==> space.translation(#[trigger] run_page(phys_base, delta, i)) is None
}

/// The address `other` lies in none of the first `n` pages of the run.
pub open spec fn outside_run(other: u64, phys_base: u64, delta: u64, n: int) -> bool {
    forall|i: int| 0 <= i < n ==> !same_page(other, (#[trigger] run_page(phys_base, delta, i)).0)
}

/// Outside the first `n` pages of the run every address translates as before.
pub open spec fn rest_kept(
    before: AddressSpace,
    after: AddressSpace,
    phys_base: u64,
    delta: u64,
    n: int,
) -> bool {
    forall|other: VirtAddr|
        outside_run(other.0, phys_base, delta, n) ==> #[trigger] after.translation(other)
            == before.translation(other)
}

/// The run stopped at page `k` with the error `e`: the pages before it are
/// mapped, and page `k` has bad addresses or could not be mapped.
pub open spec fn run_stopped(
    before: AddressSpace,
    after: AddressSpace,
    phys_base: u64,
    delta: u64,
    checked: bool,
    k: int,
    e: LoadError,
) -> bool {
    &&& run_mapped(after, phys_base, delta, k)
    &&& rest_kept(before, after, phys_base, delta, k)
    &&& forall|i: int| 0 <= i < k ==> #[trigger] run_obstacle(phys_base, delta, i, checked) is None
    &&& run_cause(after, phys_base, delta, checked, k, e)
}

/// What keeps `page` from being mapped in `space`, if anything: a mapping
/// that it has already, or what `supply` names where tables for it are
/// missing.
pub open spec fn mapping_obstacle(space: AddressSpace, page: VirtAddr) -> Option<MapError> {
    if space.translation(page) is Some {
        Some(MapError::MappingExists)
    } else {
        space.supply(page, space.frame_allocator().offset())
    }
}

/// Page `k` of the run cannot be mapped in `space`, and `e` says why: its
/// addresses are bad, or they are in order and the page has a mapping
/// obstacle.
pub open spec fn run_cause(
    space: AddressSpace,
    phys_base: u64,
    delta: u64,
    checked: bool,
    k: int,
    e: LoadError,
) -> bool {
    match run_obstacle(phys_base, delta, k, checked) {
        Some(obstacle) => e == obstacle,
        None => e is Mapping && mapping_obstacle(space, run_page(phys_base, delta, k)) == Some(
            e->Mapping_0,
        ),
    }
}

/// Maps `count` pages in a row: page `i` at the virtual address
/// `phys_base + 4096 * i + delta` to the frame at `phys_base + 4096 * i`.
/// Stops at the first page that cannot be mapped.
pub fn map_run(space: &mut AddressSpace, phys_base: u64, delta: u64, count: u64, checked: bool) -> (r:
    Result<(), LoadError>)
    requires
        old(space).wf(),
    ensures
        final(space).wf(),
        final(space).root_frame() == old(space).root_frame(),
        final(space).frame_allocator().map() == old(space).frame_allocator().map(),
        final(space).frame_allocator().offset() == old(space).frame_allocator().offset(),
        final(space).cursor() >= old(space).cursor(),
        mappings_kept(*old(space), *final(space)),
        match r {
            Ok(()) => {
                &&& run_mapped(*final(space), phys_base, delta, count as int)
                &&& run_unmapped(*old(space), phys_base, delta, count as int)
                &&& rest_kept(*old(space), *final(space), phys_base, delta, count as int)
                &&& forall|i: int|
                    0 <= i < count ==> #[trigger] run_obstacle(phys_base, delta, i, checked) is None
            },
            Err(e) => exists|k: int|
                0 <= k < count && #[trigger] run_stopped(
                    *old(space),
                    *final(space),
                    phys_base,
                    delta,
                    checked,
                    k,
                    e,
                ),
        },
{
    let mut i: u64 = 0;
    while i < count
        invariant
            space.wf(),
            i <= count,
            space.root_frame() == old(space).root_frame(),
            space.frame_allocator().map() == old(space).frame_allocator().map(),
            space.frame_allocator().offset() == old(space).frame_allocator().offset(),
            space.cursor() >= old(space).cursor(),
            mappings_kept(*old(space), *space),
            run_mapped(*space, phys_base, delta, i as int),
            run_unmapped(*old(space), phys_base, delta, i as int),
            rest_kept(*old(space), *space, phys_base, delta, i as int),
            forall|j: int| 0 <= j < i ==> #[trigger] run_obstacle(phys_base, delta, j, checked) is None,
        decreases count - i,
    {
        let ghost before = *space;
        let step = match i.checked_mul(4096) {
            Some(step) => step,
            None => {
                assert(run_stopped(*old(space), *space, phys_base, delta, checked, i as int, LoadError::AddressOverflow));
                return Err(LoadError::AddressOverflow);
            },
        };
        let phys = match phys_base.checked_add(step) {
            Some(phys) => phys,
            None => {
                assert(run_stopped(*old(space), *space, phys_base, delta, checked, i as int, LoadError::AddressOverflow));
                return Err(LoadError::AddressOverflow);
            },
        };
        let raw = match phys.checked_add(delta) {
            Some(raw) => raw,
            None => {
                assert(run_stopped(*old(space), *space, phys_base, delta, checked, i as int, LoadError::AddressOverflow));
                return Err(LoadError::AddressOverflow);
            },
        };
        let virt = if checked {
            match VirtAddr::new_checked(raw) {
                Ok(virt) => virt,
                Err(_) => {
                    assert(run_stopped(*old(space), *space, phys_base, delta, checked, i as int, LoadError::BadVirtualAddress));
                    return Err(LoadError::BadVirtualAddress);
                },
            }
        } else {
            VirtAddr::new(raw)
        };
        assert(virt == run_page(phys_base, delta, i as int));
        if phys % 4096 != 0 || phys >= 0x10_0000_0000_0000 {
            assert(run_stopped(*old(space), *space, phys_base, delta, checked, i as int, LoadError::BadFrame));
            return Err(LoadError::BadFrame);
        }
        match space.map_address(virt, phys) {
            Ok(()) => {},
            Err(e) => {
                assert(run_stopped(*old(space), *space, phys_base, delta, checked, i as int, LoadError::Mapping(e))) by {
                    assert forall|other: VirtAddr| #[trigger]
                        space.translation(other) == before.translation(other) by {}
                }
                return Err(LoadError::Mapping(e));
            },
        }
        proof {
            assert forall|j: int| 0 <= j < i + 1 implies space.translation(
                #[trigger] run_page(phys_base, delta, j),
            ) == Some(run_frame(phys_base, j)) by {
                if j < i {
                    let page = run_page(phys_base, delta, j);
                    assert(before.translation(page) is Some);
                    assert(!same_page(page.0, virt.0));
                }
            }
            assert forall|j: int| 0 <= j < i + 1 implies old(space).translation(
                #[trigger] run_page(phys_base, delta, j),
            ) is None by {
                if j == i {
                    if !outside_run(virt.0, phys_base, delta, i as int) {
                        let m = choose|m: int|
                            0 <= m < i && same_page(virt.0, (#[trigger] run_page(phys_base, delta, m)).0);
                        assert(before.translation(run_page(phys_base, delta, m)) is Some);
                    }
                    assert(before.translation(virt) == old(space).translation(virt));
                }
            }
            assert forall|other: VirtAddr| old(space).translation(other) is Some implies #[trigger]
                space.translation(other) == old(space).translation(other) by {
                assert(before.translation(other) == old(space).translation(other));
                assert(!same_page(other.0, virt.0));
            }
            assert forall|other: VirtAddr|
                outside_run(other.0, phys_base, delta, i + 1) implies #[trigger] space.translation(
                other,
            ) == old(space).translation(other) by {
                assert(!same_page(other.0, run_page(phys_base, delta, i as int).0));
                assert forall|m: int| 0 <= m < i implies !same_page(
                    other.0,
                    (#[trigger] run_page(phys_base, delta, m)).0,
                ) by {}
                assert(outside_run(other.0, phys_base, delta, i as int));
            }
        }
        i = i + 1;
    }
    Ok(())
}

/// Maps the framebuffer page by page into the direct map: the page at the
/// physical address `p` appears at `p + VIRT_MAPPING_OFFSET`. A last part of
/// the framebuffer that fills no whole page is left out.
pub fn map_framebuffer(framebuffer: &FrameBufferInfo, space: &mut AddressSpace) -> (r: Result<
    (),
    LoadError,
>)
    requires
        old(space).wf(),
    ensures
        final(space).wf(),
        final(space).root_frame() == old(space).root_frame(),
        final(space).frame_allocator().map() == old(space).frame_allocator().map(),
        final(space).frame_allocator().offset() == old(space).frame_allocator().offset(),
        final(space).cursor() >= old(space).cursor(),
        mappings_kept(*old(space), *final(space)),
        match r {
            Ok(()) => {
                &&& run_mapped(
                    *final(space),
                    framebuffer.addr,
                    VIRT_MAPPING_OFFSET,
                    framebuffer.size as int / 4096,
                )
                &&& rest_kept(
                    *old(space),
                    *final(space),
                    framebuffer.addr,
                    VIRT_MAPPING_OFFSET,
                    framebuffer.size as int / 4096,
                )
                &&& forall|i: int|
                    0 <= i < framebuffer.size as int / 4096 ==> #[trigger] run_obstacle(
                        framebuffer.addr,
                        VIRT_MAPPING_OFFSET,
                        i,
                        true,
                    ) is None
            },
            Err(e) => exists|k: int|
                0 <= k < framebuffer.size as int / 4096 && #[trigger] run_stopped(
                    *old(space),
                    *final(space),
                    framebuffer.addr,
                    VIRT_MAPPING_OFFSET,
                    true,
                    k,
                    e,
                ),
        },
{
    let pages = (framebuffer.size / 4096) as u64;
    map_run(space, framebuffer.addr, VIRT_MAPPING_OFFSET, pages, true)
}

/// Identity-maps the `stack_depth` pages of the stack that starts at
/// `stack_addr`, and returns the address of the last of them, where the
/// stack pointer starts.
pub fn create_stack(stack_addr: u64, stack_depth: usize, space: &mut AddressSpace) -> (r: Result<
    u64,
    LoadError,
>)
    requires
        old(space).wf(),
        stack_depth >= 1,
    ensures
        final(space).wf(),
        final(space).root_frame() == old(space).root_frame(),
        final(space).frame_allocator().map() == old(space).frame_allocator().map(),
        final(space).frame_allocator().offset() == old(space).frame_allocator().offset(),
        mappings_kept(*old(space), *final(space)),
        match r {
            Ok(top) => {
                &&& top == stack_addr + (stack_depth - 1) * 4096
                &&& run_mapped(*final(space), stack_addr, 0, stack_depth as int)
                &&& rest_kept(*old(space), *final(space), stack_addr, 0, stack_depth as int)
                &&& forall|i: int|
                    0 <= i < stack_depth ==> #[trigger] run_obstacle(stack_addr, 0, i, true) is None
            },
            Err(e) => exists|k: int|
                0 <= k < stack_depth && #[trigger] run_stopped(
                    *old(space),
                    *final(space),
                    stack_addr,
                    0,
                    true,
                    k,
                    e,
                ),
        },
{
    match map_run(space, stack_addr, 0, stack_depth as u64, true) {
        Ok(()) => {
            assert(run_obstacle(stack_addr, 0, stack_depth - 1, true) is None);
            Ok(stack_addr + (stack_depth as u64 - 1) * 4096)
        },
        Err(e) => Err(e),
    }
}

/// Builds the direct map: every frame below `last_frame_addr` appears at its
/// physical address plus `VIRT_MAPPING_OFFSET`.
pub fn map_all_memory(last_frame_addr: u64, space: &mut AddressSpace) -> (r: Result<(), LoadError>)
    requires
        old(space).wf(),
    ensures
        final(space).wf(),
        final(space).root_frame() == old(space).root_frame(),
        final(space).frame_allocator().map() == old(space).frame_allocator().map(),
        final(space).frame_allocator().offset() == old(space).frame_allocator().offset(),
        final(space).cursor() >= old(space).cursor(),
        mappings_kept(*old(space), *final(space)),
        match r {
            Ok(()) => {
                &&& run_mapped(*final(space), 0, VIRT_MAPPING_OFFSET, last_frame_addr as int / 4096)
                &&& rest_kept(
                    *old(space),
                    *final(space),
                    0,
                    VIRT_MAPPING_OFFSET,
                    last_frame_addr as int / 4096,
                )
                &&& forall|i: int|
                    0 <= i < last_frame_addr as int / 4096 ==> #[trigger] run_obstacle(
                        0,
                        VIRT_MAPPING_OFFSET,
                        i,
                        false,
                    ) is None
            },
            Err(e) => exists|k: int|
                0 <= k < last_frame_addr as int / 4096 && #[trigger] run_stopped(
                    *old(space),
                    *final(space),
                    0,
                    VIRT_MAPPING_OFFSET,
                    false,
                    k,
                    e,
                ),
        },
{
    map_run(space, 0, VIRT_MAPPING_OFFSET, last_frame_addr / 4096, false)
}

/// The page that holds `addr` is mapped to the frame at the same address.
pub open spec fn identity_mapped(space: AddressSpace, addr: u64) -> bool {
    space.translation(VirtAddr(page_base(sign_extend(addr)))) == Some(page_base(addr))
}

/// What keeps the page that holds `addr` from being identity-mapped in
/// `space`, if anything: an address with data in bits 48 to 63, a frame
/// beyond the reach of a table entry, a mapping of the page to another
/// frame, or what `supply` names where tables for the page are missing.
pub open spec fn identity_obstacle(space: AddressSpace, addr: u64) -> Option<LoadError> {
    let page = VirtAddr(page_base(sign_extend(addr)));
    if !accepted_by_check(addr) {
        Some(LoadError::BadVirtualAddress)
    } else if !is_frame_addr(page_base(addr)) {
        Some(LoadError::BadFrame)
    } else if identity_mapped(space, addr) {
        None
    } else if space.translation(page) is Some {
        Some(LoadError::Mapping(MapError::MappingExists))
    } else {
        match space.supply(page, space.frame_allocator().offset()) {
            Some(e) => Some(LoadError::Mapping(e)),
            None => None,
        }
    }
}

/// Identity-maps the page that holds `addr`, unless it is identity-mapped
/// already. No other page changes. Fails, and changes nothing, where
/// `identity_obstacle` names an obstacle.
pub fn map_identity_page(addr: u64, space: &mut AddressSpace) -> (r: Result<(), LoadError>)
    requires
        old(space).wf(),
    ensures
        final(space).wf(),
        final(space).root_frame() == old(space).root_frame(),
        final(space).frame_allocator().map() == old(space).frame_allocator().map(),
        final(space).frame_allocator().offset() == old(space).frame_allocator().offset(),
        mappings_kept(*old(space), *final(space)),
        forall|other: VirtAddr|
            !same_page(other.0, addr) ==> #[trigger] final(space).translation(other) == old(space).translation(other),
        match r {
            Ok(()) => {
                &&& identity_obstacle(*old(space), addr) is None
                &&& accepted_by_check(addr)
                &&& is_frame_addr(page_base(addr))
                &&& identity_mapped(*final(space), addr)
                &&& final(space).cursor() == old(space).cursor() + (if identity_mapped(
                    *old(space),
                    addr,
                ) {
                    0
                } else {
                    old(space).missing(VirtAddr(page_base(sign_extend(addr))))
                })
            },
            Err(e) => {
                &&& identity_obstacle(*old(space), addr) == Some(e)
                &&& final(space).tables() == old(space).tables()
                &&& final(space).cursor() == old(space).cursor()
            },
        },
{
    let virt = match VirtAddr::new_checked(addr) {
        Ok(virt) => align_down(virt),
        Err(_) => {
            return Err(LoadError::BadVirtualAddress);
        },
    };
    let phys = align_down_u64(addr);
    if phys >= 0x10_0000_0000_0000 {
        return Err(LoadError::BadFrame);
    }
    proof {
        lemma_sign_extend_indices(addr);
        lemma_page_base_indices(sign_extend(addr));
        lemma_page_base_indices(addr);
    }
    if space.translate(virt) == Some(phys) {
        return Ok(());
    }
    match space.map_address(virt, phys) {
        Ok(()) => Ok(()),
        Err(e) => Err(LoadError::Mapping(e)),
    }
}

/// Rounding an address down to its page changes no table index.
pub proof fn lemma_page_base_indices(addr: u64)
    ensures
        same_page(page_base(addr), addr),
{
    let base = page_base(addr);
    assert(base / 0x1000 == addr / 0x1000);
    assert(base / 0x20_0000 == addr / 0x20_0000) by {
        assert(base / 0x20_0000 == (base / 0x1000) / 512);
        assert(addr / 0x20_0000 == (addr / 0x1000) / 512);
    }
    assert(base / 0x4000_0000 == addr / 0x4000_0000) by {
        assert(base / 0x4000_0000 == (base / 0x1000) / 0x4_0000);
        assert(addr / 0x4000_0000 == (addr / 0x1000) / 0x4_0000);
    }
    assert(base / 0x80_0000_0000 == addr / 0x80_0000_0000) by {
        assert(base / 0x80_0000_0000 == (base / 0x1000) / 0x800_0000);
        assert(addr / 0x80_0000_0000 == (addr / 0x1000) / 0x800_0000);
    }
}

/// The address `other` lies in none of the pages that the boot information
/// needs.
pub open spec fn outside_bootinfo(other: u64, boot_info_addr: u64, memory_map_addr: u64) -> bool {
    &&& !same_page(other, boot_info_addr)
    &&& forall|i: int|
        0 <= i <= MEMORY_MAP_PAGES ==> !same_page(other, #[trigger] memory_map_page(memory_map_addr, i))
}

/// The first `n` pages of the memory map end inside the address space and
/// are identity-mapped.
pub open spec fn memory_map_mapped(space: AddressSpace, memory_map_addr: u64, n: int) -> bool {
    forall|i: int|
        0 <= i < n ==> page_base(memory_map_addr) + 4096 * i <= u64::MAX && identity_mapped(
            space,
            #[trigger] memory_map_page(memory_map_addr, i),
        )
}

/// The mapping of the boot information stopped with the error `e` at page
/// `k` of the memory map: the page of the boot information and the pages of
/// the map before `k` are identity-mapped, nothing else has changed since
/// `before`, and page `k` lies beyond the address space or has the obstacle
/// `e`.
pub open spec fn bootinfo_stopped(
    before: AddressSpace,
    after: AddressSpace,
    boot_info_addr: u64,
    memory_map_addr: u64,
    k: int,
    e: LoadError,
) -> bool {
    &&& identity_mapped(after, boot_info_addr)
    &&& memory_map_mapped(after, memory_map_addr, k)
    &&& forall|other: VirtAddr|
        !same_page(other.0, boot_info_addr) && (forall|i: int|
            0 <= i < k ==> !same_page(other.0, #[trigger] memory_map_page(memory_map_addr, i)))
            ==> #[trigger] after.translation(other) == before.translation(other)
    &&& if page_base(memory_map_addr) + 4096 * k > u64::MAX {
        e == LoadError::AddressOverflow
    } else {
        identity_obstacle(after, memory_map_page(memory_map_addr, k)) == Some(e)
    }
}

/// Identity-maps the page of the boot information and the pages of the
/// memory map that it holds, so that the kernel finds them where the loader
/// left them. A page that is identity-mapped already is left alone, no
/// mapping that was there changes, and no address outside these pages
/// translates otherwise than before.
///
/// Stops at the first page that cannot be identity-mapped, the page of the
/// boot information first and then the pages of the memory map in rising
/// order, with the obstacle of that page as the error. The pages before it
/// stay mapped.
pub fn map_bootinfo(boot_info_addr: u64, memory_map_addr: u64, space: &mut AddressSpace) -> (r:
    Result<(), LoadError>)
    requires
        old(space).wf(),
    ensures
        final(space).wf(),
        final(space).root_frame() == old(space).root_frame(),
        final(space).frame_allocator().map() == old(space).frame_allocator().map(),
        final(space).frame_allocator().offset() == old(space).frame_allocator().offset(),
        final(space).cursor() >= old(space).cursor(),
        mappings_kept(*old(space), *final(space)),
        forall|other: VirtAddr|
            outside_bootinfo(other.0, boot_info_addr, memory_map_addr) ==> #[trigger] final(space).translation(
                other,
            ) == old(space).translation(other),
        match r {
            Ok(()) => {
                &&& identity_mapped(*final(space), boot_info_addr)
                &&& memory_map_mapped(*final(space), memory_map_addr, MEMORY_MAP_PAGES + 1)
            },
            Err(e) => (identity_obstacle(*old(space), boot_info_addr) == Some(e)
                && final(space).tables() == old(space).tables()
                && final(space).cursor() == old(space).cursor()) || exists|k: int|
                0 <= k <= MEMORY_MAP_PAGES && #[trigger] bootinfo_stopped(
                    *old(space),
                    *final(space),
                    boot_info_addr,
                    memory_map_addr,
                    k,
                    e,
                ),
        },
{
    match map_identity_page(boot_info_addr, space) {
        Ok(()) => {},
        Err(e) => {
            return Err(e);
        },
    }
    let base = align_down_u64(memory_map_addr);
    let mut i: usize = 0;
    while i <= MEMORY_MAP_PAGES
        invariant
            space.wf(),
            i <= MEMORY_MAP_PAGES + 1,
            base == page_base(memory_map_addr),
            space.root_frame() == old(space).root_frame(),
            space.frame_allocator().map() == old(space).frame_allocator().map(),
            space.frame_allocator().offset() == old(space).frame_allocator().offset(),
            space.cursor() >= old(space).cursor(),
            mappings_kept(*old(space), *space),
            forall|other: VirtAddr|
                outside_bootinfo(other.0, boot_info_addr, memory_map_addr) ==> #[trigger] space.translation(
                    other,
                ) == old(space).translation(other),
            identity_mapped(*space, boot_info_addr),
            memory_map_mapped(*space, memory_map_addr, i as int),
            forall|other: VirtAddr|
                !same_page(other.0, boot_info_addr) && (forall|j: int|
                    0 <= j < i ==> !same_page(other.0, #[trigger] memory_map_page(memory_map_addr, j)))
                    ==> #[trigger] space.translation(other) == old(space).translation(other),
        decreases MEMORY_MAP_PAGES + 1 - i,
    {
        let ghost before = *space;
        let addr = match base.checked_add(i as u64 * 4096) {
            Some(addr) => addr,
            None => {
                assert(bootinfo_stopped(
                    *old(space),
                    *space,
                    boot_info_addr,
                    memory_map_addr,
                    i as int,
                    LoadError::AddressOverflow,
                ));
                return Err(LoadError::AddressOverflow);
            },
        };
        assert(addr == memory_map_page(memory_map_addr, i as int));
        match map_identity_page(addr, space) {
            Ok(()) => {},
            Err(e) => {
                assert(bootinfo_stopped(*old(space), *space, boot_info_addr, memory_map_addr, i as int, e)) by {
                    lemma_same_state(before, *space);
                }
                return Err(e);
            },
        }
        assert(memory_map_mapped(*space, memory_map_addr, i + 1)) by {
            assert forall|j: int| 0 <= j < i + 1 implies page_base(memory_map_addr) + 4096 * j
                <= u64::MAX && identity_mapped(*space, #[trigger] memory_map_page(memory_map_addr, j)) by {
                if j < i {
                    assert(identity_mapped(before, memory_map_page(memory_map_addr, j)));
                }
            }
        }
        i = i + 1;
    }
    Ok(())
}

/// The address of page `i` of the memory map inside the boot information.
pub open spec fn memory_map_page(memory_map_addr: u64, i: int) -> u64 {
    (page_base(memory_map_addr) + 4096 * i) as u64
}

/// What a program header of the kernel image is for.
#[derive(Clone, Copy, PartialEq, Eq, Structural, Debug)]
pub enum SegmentKind {
    /// The segment is loaded into memory.
    Load,
    /// The segment is a template for thread-local storage.
    Tls,
    /// Any other kind; the loader passes it over.
    Other,
}

/// A program header of the kernel image, as far as the loader reads it.
#[derive(Clone, Copy, PartialEq, Eq, Structural, Debug)]
pub struct ProgramHeader {
    pub kind: SegmentKind,
    pub offset: u64,
    pub virtual_addr: u64,
    pub file_size: u64,
    pub mem_size: u64,
}

/// A page that the loader mapped for the kernel image: the page, the frame
/// it was first mapped to, the frame it is mapped to now, and whether it is
/// a page of zeros, which holds no byte of the file and was mapped to a
/// fresh frame from the start.
#[derive(Clone, Copy, PartialEq, Eq, Structural, Debug)]
pub struct MappedEntry {
    pub page: VirtAddr,
    pub frame: u64,
    pub target: u64,
    pub zeroed: bool,
}

/// A frame that the loader must fill before the kernel runs: the first
/// `copied` bytes come from the frame at `source`, the rest of the 4096 are
/// zero.
#[derive(Clone, Copy, PartialEq, Eq, Structural, Debug)]
pub struct FrameFill {
    pub frame: u64,
    pub source: u64,
    pub copied: u64,
}

/// The pages mapped for the kernel image and the frames to fill for it.
pub struct KernelImage {
    pub mapped: Vec<MappedEntry>,
    pub fills: Vec<FrameFill>,
}

/// Every page of the list is mapped to its entry's target.
pub open spec fn all_listed(space: AddressSpace, list: Seq<MappedEntry>) -> bool {
    forall|i: int|
        0 <= i < list.len() ==> space.translation((#[trigger] list[i]).page) == Some(list[i].target)
}

/// `other` lies in no page of the list.
pub open spec fn outside_list(other: u64, list: Seq<MappedEntry>) -> bool {
    forall|i: int| 0 <= i < list.len() ==> !same_page(other, (#[trigger] list[i]).page.0)
}

/// No two entries of the list have the same page.
pub open spec fn list_apart(list: Seq<MappedEntry>) -> bool {
    forall|i: int, j: int|
        0 <= i < j < list.len() ==> !same_page((#[trigger] list[i]).page.0, (#[trigger] list[j]).page.0)
}

/// Outside the pages of the list every address translates as before.
pub open spec fn others_kept(before: AddressSpace, after: AddressSpace, list: Seq<MappedEntry>) -> bool {
    forall|other: VirtAddr|
        outside_list(other.0, list) ==> #[trigger] after.translation(other) == before.translation(
            other,
        )
}

/// The state that the mapping of a kernel image keeps: the address space is
/// well formed, the list tells the truth about it, nothing outside the list
/// has changed since `start`, and no page of the list was mapped at `start`.
pub open spec fn image_inv(start: AddressSpace, space: AddressSpace, list: Seq<MappedEntry>) -> bool {
    &&& space.wf()
    &&& space.root_frame() == start.root_frame()
    &&& space.frame_allocator().map() == start.frame_allocator().map()
    &&& space.frame_allocator().offset() == start.frame_allocator().offset()
    &&& start.cursor() <= space.cursor()
    &&& all_listed(space, list)
    &&& list_apart(list)
    &&& others_kept(start, space, list)
    &&& forall|i: int| 0 <= i < list.len() ==> start.translation((#[trigger] list[i]).page) is None
}

/// The allocator has no frame to hand out: it has gone past its last frame,
/// or its count of the frames handed out cannot rise.
pub open spec fn frames_spent(space: AddressSpace) -> bool {
    space.cursor() > space.frames().len() || space.cursor() >= usize::MAX
}

/// What keeps `page` from being mapped to `frame` in `space`, if anything:
/// a frame that no entry can name, or a mapping obstacle of the page.
pub open spec fn entry_obstacle(space: AddressSpace, page: VirtAddr, frame: u64) -> Option<LoadError> {
    if !is_frame_addr(frame) {
        Some(LoadError::BadFrame)
    } else {
        match mapping_obstacle(space, page) {
            Some(m) => Some(LoadError::Mapping(m)),
            None => None,
        }
    }
}

/// Two address spaces with the same tables, root and allocator state
/// translate alike and have the same obstacles.
pub proof fn lemma_same_state(a: AddressSpace, b: AddressSpace)
    requires
        a.tables() == b.tables(),
        a.root_frame() == b.root_frame(),
        a.cursor() == b.cursor(),
        a.frame_allocator().map() == b.frame_allocator().map(),
        a.frame_allocator().offset() == b.frame_allocator().offset(),
    ensures
        forall|page: VirtAddr| #[trigger] a.translation(page) == b.translation(page),
        forall|page: VirtAddr| #[trigger] mapping_obstacle(a, page) == mapping_obstacle(b, page),
        forall|page: VirtAddr, frame: u64| #[trigger]
            entry_obstacle(a, page, frame) == entry_obstacle(b, page, frame),
        forall|addr: u64| #[trigger] identity_obstacle(a, addr) == identity_obstacle(b, addr),
        frames_spent(a) == frames_spent(b),
{
}

fn map_listed(
    space: &mut AddressSpace,
    list: &mut Vec<MappedEntry>,
    page: VirtAddr,
    frame: u64,
    zeroed: bool,
    Ghost(start): Ghost<AddressSpace>,
) -> (r: Result<(), LoadError>)
    requires
        image_inv(start, *old(space), old(list)@),
    ensures
        image_inv(start, *final(space), final(list)@),
        final(space).cursor() >= old(space).cursor(),
        match r {
            Ok(()) => {
                &&& final(list)@ == old(list)@.push(MappedEntry { page, frame, target: frame, zeroed })
                &&& entry_obstacle(*old(space), page, frame) is None
            },
            Err(e) => {
                &&& final(list)@ == old(list)@
                &&& entry_obstacle(*old(space), page, frame) == Some(e)
                &&& final(space).tables() == old(space).tables()
                &&& final(space).cursor() == old(space).cursor()
            },
        },
{
    if frame % 4096 != 0 || frame >= 0x10_0000_0000_0000 {
        return Err(LoadError::BadFrame);
    }
    let ghost before = *space;
    let ghost earlier = list@;
    match space.map_address(page, frame) {
        Ok(()) => {},
        Err(e) => {
            assert forall|other: VirtAddr| #[trigger]
                space.translation(other) == before.translation(other) by {}
            return Err(LoadError::Mapping(e));
        },
    }
    list.push(MappedEntry { page, frame, target: frame, zeroed });
    proof {
        let now = list@;
        assert forall|i: int| 0 <= i < now.len() implies space.translation(
            (#[trigger] now[i]).page,
        ) == Some(now[i].target) by {
            if i < earlier.len() {
                assert(now[i] == earlier[i]);
                assert(before.translation(earlier[i].page) is Some);
                assert(!same_page(earlier[i].page.0, page.0));
            }
        }
        assert forall|i: int, j: int| 0 <= i < j < now.len() implies !same_page(
            (#[trigger] now[i]).page.0,
            (#[trigger] now[j]).page.0,
        ) by {
            assert(now[i] == earlier[i]);
            if j < earlier.len() {
                assert(now[j] == earlier[j]);
            } else {
                assert(before.translation(earlier[i].page) is Some);
            }
        }
        assert forall|other: VirtAddr| outside_list(other.0, now) implies #[trigger]
            space.translation(other) == start.translation(other) by {
            assert(!same_page(other.0, now[earlier.len() as int].page.0));
            assert forall|m: int| 0 <= m < earlier.len() implies !same_page(
                other.0,
                (#[trigger] earlier[m]).page.0,
            ) by {
                assert(now[m] == earlier[m]);
            }
        }
        assert forall|i: int| 0 <= i < now.len() implies start.translation(
            (#[trigger] now[i]).page,
        ) is None by {
            if i < earlier.len() {
                assert(now[i] == earlier[i]);
            } else {
                assert forall|m: int| 0 <= m < earlier.len() implies !same_page(
                    page.0,
                    (#[trigger] earlier[m]).page.0,
                ) by {
                    assert(before.translation(earlier[m].page) is Some);
                }
                assert(outside_list(page.0, earlier));
                assert(before.translation(page) == start.translation(page));
            }
        }
    }
    Ok(())
}

/// The list with every page of the file that was first mapped to
/// `image_frame` pointed to `new_frame`. Pages of zeros stay as they are.
pub open spec fn retargeted(list: Seq<MappedEntry>, image_frame: u64, new_frame: u64) -> Seq<
    MappedEntry,
> {
    Seq::new(
        list.len(),
        |k: int|
            if !list[k].zeroed && list[k].frame == image_frame {
                MappedEntry { page: list[k].page, frame: list[k].frame, target: new_frame, zeroed: false }
            } else {
                list[k]
            },
    )
}

/// Points every listed page of the file that was first mapped to
/// `image_frame` to `new_frame` instead.
fn remap_listed(
    space: &mut AddressSpace,
    list: &mut Vec<MappedEntry>,
    image_frame: u64,
    new_frame: u64,
    Ghost(start): Ghost<AddressSpace>,
)
    requires
        image_inv(start, *old(space), old(list)@),
        is_frame_addr(new_frame),
    ensures
        image_inv(start, *final(space), final(list)@),
        final(list)@ == retargeted(old(list)@, image_frame, new_frame),
        final(space).cursor() == old(space).cursor(),
        final(space).frames() == old(space).frames(),
{
    let mut i: usize = 0;
    while i < list.len()
        invariant
            image_inv(start, *space, list@),
            is_frame_addr(new_frame),
            i <= list@.len(),
            list@.len() == old(list)@.len(),
            space.cursor() == old(space).cursor(),
            space.frames() == old(space).frames(),
            forall|k: int|
                0 <= k < list@.len() ==> #[trigger] list@[k] == (if k < i {
                    retargeted(old(list)@, image_frame, new_frame)[k]
                } else {
                    old(list)@[k]
                }),
        decreases list@.len() - i,
    {
        let entry = list[i];
        if !entry.zeroed && entry.frame == image_frame {
            let ghost before = *space;
            let ghost earlier = list@;
            match space.remap_address(entry.page, new_frame) {
                Ok(()) => {},
                Err(_) => {
                    proof {
                        assert(before.translation(earlier[i as int].page) is Some);
                        assert(false);
                    }
                },
            }
            list[i] = MappedEntry { page: entry.page, frame: entry.frame, target: new_frame, zeroed: false };
            proof {
                let now = list@;
                assert forall|m: int| 0 <= m < now.len() implies space.translation(
                    (#[trigger] now[m]).page,
                ) == Some(now[m].target) by {
                    if m != i {
                        assert(now[m] == earlier[m]);
                        if m < i {
                            assert(!same_page(earlier[m].page.0, earlier[i as int].page.0));
                        } else {
                            assert(!same_page(earlier[i as int].page.0, earlier[m].page.0));
                        }
                    }
                }
                assert forall|a: int, b: int| 0 <= a < b < now.len() implies !same_page(
                    (#[trigger] now[a]).page.0,
                    (#[trigger] now[b]).page.0,
                ) by {
                    assert(now[a].page == earlier[a].page && now[b].page == earlier[b].page);
                }
                assert forall|other: VirtAddr| outside_list(other.0, now) implies #[trigger]
                    space.translation(other) == start.translation(other) by {
                    assert(!same_page(other.0, now[i as int].page.0));
                    assert forall|m: int| 0 <= m < earlier.len() implies !same_page(
                        other.0,
                        (#[trigger] earlier[m]).page.0,
                    ) by {
                        assert(now[m].page == earlier[m].page);
                    }
                }
                assert forall|m: int| 0 <= m < now.len() implies start.translation(
                    (#[trigger] now[m]).page,
                ) is None by {
                    assert(now[m].page == earlier[m].page);
                }
            }
        }
        i = i + 1;
    }
    assert(list@ =~= retargeted(old(list)@, image_frame, new_frame));
}

/// `longer` starts with the fills of `shorter`.
pub open spec fn fills_extend(shorter: Seq<FrameFill>, longer: Seq<FrameFill>) -> bool {
    &&& shorter.len() <= longer.len()
    &&& forall|k: int| 0 <= k < shorter.len() ==> #[trigger] longer[k] == shorter[k]
}

/// The virtual address that starts the segment.
pub open spec fn segment_start(h: ProgramHeader) -> u64 {
    sign_extend(h.virtual_addr)
}

/// The number of pages that hold bytes of the segment's part of the file.
pub open spec fn file_page_count(h: ProgramHeader) -> int {
    if h.file_size > 0 {
        1 + (h.file_size - 1 + segment_start(h) % 4096) / 4096
    } else {
        0
    }
}

/// The virtual address of the first byte of the segment that the file does
/// not hold and that starts out as zero.
pub open spec fn zero_start(h: ProgramHeader) -> u64 {
    sign_extend((segment_start(h) + h.file_size) as u64)
}

/// The number of bytes of the file in the page where the zero bytes start;
/// 0 where they start on a page boundary.
pub open spec fn tail_bytes(h: ProgramHeader) -> int {
    zero_start(h) as int % 4096
}

/// The number of zero bytes in the page that they share with file bytes.
pub open spec fn shared_zero_bytes(h: ProgramHeader) -> int {
    if tail_bytes(h) == 0 {
        0
    } else {
        4096 - tail_bytes(h)
    }
}

/// The number of whole pages of zero bytes that the segment needs beyond
/// the page shared with file bytes.
pub open spec fn zero_page_count(h: ProgramHeader) -> int {
    if h.mem_size - h.file_size > shared_zero_bytes(h) {
        (h.mem_size - h.file_size - shared_zero_bytes(h) + 4095) / 4096
    } else {
        0
    }
}

/// The virtual address of the first whole page of zero bytes.
pub open spec fn zero_base(h: ProgramHeader) -> u64 {
    sign_extend((zero_start(h) + shared_zero_bytes(h)) as u64)
}

/// The frame of the image that holds the last byte of the segment's part of
/// the file.
pub open spec fn last_file_frame(h: ProgramHeader, kernel: u64) -> u64 {
    if kernel + h.offset + h.file_size >= 1 {
        page_base((kernel + h.offset + h.file_size - 1) as u64)
    } else {
        0
    }
}

/// The segment has file bytes and zero bytes in one page.
pub open spec fn has_tail(h: ProgramHeader) -> bool {
    h.kind == SegmentKind::Load && h.mem_size > h.file_size && tail_bytes(h) != 0
}

/// The number of fresh frames that the segment takes: one for a page shared
/// by file bytes and zero bytes, and one for every whole page of zeros.
pub open spec fn fresh_count(h: ProgramHeader) -> int {
    if h.kind == SegmentKind::Load && h.mem_size > h.file_size {
        (if tail_bytes(h) != 0 {
            1int
        } else {
            0int
        }) + zero_page_count(h)
    } else {
        0
    }
}

/// Page `i` of a row of pages that starts at `virt_base`.
pub open spec fn listed_page(virt_base: u64, i: int) -> VirtAddr {
    VirtAddr(sign_extend((virt_base + 4096 * i) as u64))
}

/// The entries of `n` pages of the file in a row: page `i` from `virt_base`
/// on, mapped to frame `i` from `phys_base` on.
pub open spec fn file_entries(virt_base: u64, phys_base: u64, n: int) -> Seq<MappedEntry> {
    Seq::new(
        n as nat,
        |i: int|
            MappedEntry {
                page: listed_page(virt_base, i),
                frame: (phys_base + 4096 * i) as u64,
                target: (phys_base + 4096 * i) as u64,
                zeroed: false,
            },
    )
}

/// The entries of pages of zeros in a row from `virt_base` on, page `i`
/// mapped to `frames[i]`.
pub open spec fn zero_entries(virt_base: u64, frames: Seq<u64>) -> Seq<MappedEntry> {
    Seq::new(
        frames.len(),
        |i: int|
            MappedEntry { page: listed_page(virt_base, i), frame: frames[i], target: frames[i], zeroed: true },
    )
}

/// The fills that zero the frames.
pub open spec fn zero_fills(frames: Seq<u64>) -> Seq<FrameFill> {
    Seq::new(frames.len(), |i: int| FrameFill { frame: frames[i], source: 0, copied: 0 })
}

/// The frames of `count` fills from place `from` on.
pub open spec fn fresh_of(fills: Seq<FrameFill>, from: int, count: int) -> Seq<u64> {
    Seq::new(count as nat, |k: int| fills[from + k].frame)
}

/// The frames of the fills that `longer` has beyond the first `from`.
pub open spec fn new_frames(from: int, longer: Seq<FrameFill>) -> Seq<u64> {
    fresh_of(longer, from, longer.len() - from)
}

/// The address or the frame of page `i` of a row lies beyond 64 bits.
pub open spec fn page_beyond(virt_base: u64, phys_base: u64, i: int) -> bool {
    4096 * i > u64::MAX || virt_base + 4096 * i > u64::MAX || phys_base + 4096 * i > u64::MAX
}

/// Page `i` of a row of file pages cannot be mapped in `space`, and `e`
/// says why: its address or its frame lies beyond 64 bits, or they do not
/// and the page has the obstacle `e`.
pub open spec fn file_cause(space: AddressSpace, virt_base: u64, phys_base: u64, i: int, e: LoadError) -> bool {
    if page_beyond(virt_base, phys_base, i) {
        e == LoadError::AddressOverflow
    } else {
        entry_obstacle(space, listed_page(virt_base, i), (phys_base + 4096 * i) as u64) == Some(e)
    }
}

/// Page `i` of a row of pages of zeros cannot be had in `space`, and `e`
/// says why: its address lies beyond 64 bits; or it does not and no frame
/// is left for the page; or a frame was there and the page has a mapping
/// obstacle.
pub open spec fn zero_cause(space: AddressSpace, virt_base: u64, i: int, e: LoadError) -> bool {
    if page_beyond(virt_base, 0, i) {
        e == LoadError::AddressOverflow
    } else {
        ||| e == LoadError::OutOfMemory && frames_spent(space)
        ||| space.cursor() <= space.frames().len() && e is Mapping && mapping_obstacle(
            space,
            listed_page(virt_base, i),
        ) == Some(e->Mapping_0)
    }
}

fn map_file_pages(
    space: &mut AddressSpace,
    list: &mut Vec<MappedEntry>,
    virt_base: VirtAddr,
    phys_base: u64,
    count: u64,
    Ghost(start): Ghost<AddressSpace>,
) -> (r: Result<(), LoadError>)
    requires
        image_inv(start, *old(space), old(list)@),
    ensures
        image_inv(start, *final(space), final(list)@),
        final(space).cursor() >= old(space).cursor(),
        match r {
            Ok(()) => final(list)@ == old(list)@ + file_entries(virt_base.0, phys_base, count as int),
            Err(e) => exists|i: int|
                0 <= i < count && final(list)@ == old(list)@ + file_entries(virt_base.0, phys_base, i)
                    && #[trigger] file_cause(*final(space), virt_base.0, phys_base, i, e),
        },
{
    let mut i: u64 = 0;
    while i < count
        invariant
            image_inv(start, *space, list@),
            space.cursor() >= old(space).cursor(),
            list@ == old(list)@ + file_entries(virt_base.0, phys_base, i as int),
            i <= count,
        decreases count - i,
    {
        let step = match i.checked_mul(4096) {
            Some(step) => step,
            None => {
                assert(file_cause(*space, virt_base.0, phys_base, i as int, LoadError::AddressOverflow));
                return Err(LoadError::AddressOverflow);
            },
        };
        let page = match virt_base.offset(step) {
            Ok(page) => page,
            Err(_) => {
                assert(file_cause(*space, virt_base.0, phys_base, i as int, LoadError::AddressOverflow));
                return Err(LoadError::AddressOverflow);
            },
        };
        let frame = match phys_base.checked_add(step) {
            Some(frame) => frame,
            None => {
                assert(file_cause(*space, virt_base.0, phys_base, i as int, LoadError::AddressOverflow));
                return Err(LoadError::AddressOverflow);
            },
        };
        let ghost earlier = list@;
        let ghost before = *space;
        assert(page == listed_page(virt_base.0, i as int));
        match map_listed(space, list, page, frame, false, Ghost(start)) {
            Ok(()) => {},
            Err(e) => {
                proof {
                    lemma_same_state(before, *space);
                    assert(file_cause(*space, virt_base.0, phys_base, i as int, e));
                }
                return Err(e);
            },
        }
        assert(list@ =~= old(list)@ + file_entries(virt_base.0, phys_base, i + 1));
        i = i + 1;
    }
    Ok(())
}

/// The frames of the fills that follow `fills` are `frames`, where the
/// fills that follow zero `frames`.
proof fn lemma_zero_fills_frames(fills: Seq<FrameFill>, frames: Seq<u64>)
    ensures
        new_frames(fills.len() as int, fills + zero_fills(frames)) == frames,
{
    assert(new_frames(fills.len() as int, fills + zero_fills(frames)) =~= frames);
}

fn map_zero_pages(
    space: &mut AddressSpace,
    list: &mut Vec<MappedEntry>,
    fills: &mut Vec<FrameFill>,
    virt_base: VirtAddr,
    count: u64,
    Ghost(start): Ghost<AddressSpace>,
) -> (r: Result<(), LoadError>)
    requires
        image_inv(start, *old(space), old(list)@),
        fills_ordered(start.frames(), start.cursor(), old(space).cursor(), old(fills)@),
    ensures
        image_inv(start, *final(space), final(list)@),
        fills_extend(old(fills)@, final(fills)@),
        final(fills)@ == old(fills)@ + zero_fills(new_frames(old(fills)@.len() as int, final(fills)@)),
        final(list)@ == old(list)@ + zero_entries(
            virt_base.0,
            new_frames(old(fills)@.len() as int, final(fills)@),
        ),
        fills_ordered(start.frames(), start.cursor(), final(space).cursor(), final(fills)@),
        final(space).cursor() >= old(space).cursor(),
        match r {
            Ok(()) => final(fills)@.len() == old(fills)@.len() + count,
            Err(e) => final(fills)@.len() < old(fills)@.len() + count && zero_cause(
                *final(space),
                virt_base.0,
                final(fills)@.len() - old(fills)@.len(),
                e,
            ),
        },
{
    let mut i: u64 = 0;
    let ghost mut fresh: Seq<u64> = Seq::empty();
    assert(fills@ =~= old(fills)@ + zero_fills(fresh));
    assert(list@ =~= old(list)@ + zero_entries(virt_base.0, fresh));
    while i < count
        invariant
            image_inv(start, *space, list@),
            fresh.len() == i,
            fills@ == old(fills)@ + zero_fills(fresh),
            list@ == old(list)@ + zero_entries(virt_base.0, fresh),
            fills_ordered(start.frames(), start.cursor(), space.cursor(), fills@),
            space.cursor() >= old(space).cursor(),
            i <= count,
        decreases count - i,
    {
        proof {
            lemma_zero_fills_frames(old(fills)@, fresh);
        }
        let step = match i.checked_mul(4096) {
            Some(step) => step,
            None => {
                return Err(LoadError::AddressOverflow);
            },
        };
        let page = match virt_base.offset(step) {
            Ok(page) => page,
            Err(_) => {
                return Err(LoadError::AddressOverflow);
            },
        };
        assert(page == listed_page(virt_base.0, i as int));
        if space.next_frame_index() == usize::MAX {
            return Err(LoadError::OutOfMemory);
        }
        let ghost before = *space;
        let allocated = space.allocate_frame();
        proof {
            assert forall|other: VirtAddr| #[trigger]
                space.translation(other) == before.translation(other) by {}
            lemma_ordered_widen(start.frames(), start.cursor(), before.cursor(), space.cursor(), fills@);
        }
        let frame = match allocated {
            Some(frame) => frame,
            None => {
                return Err(LoadError::OutOfMemory);
            },
        };
        let ghost taken = *space;
        let ghost earlier_fills = fills@;
        proof {
            assert(start.frames() == before.frames());
            assert(start.frames()[before.cursor()] == frame);
        }
        match map_listed(space, list, page, frame, true, Ghost(start)) {
            Ok(()) => {},
            Err(e) => {
                proof {
                    lemma_same_state(taken, *space);
                    assert(zero_cause(*space, virt_base.0, i as int, e));
                }
                return Err(e);
            },
        }
        fills.push(FrameFill { frame, source: 0, copied: 0 });
        proof {
            lemma_ordered_push(
                start.frames(),
                start.cursor(),
                before.cursor(),
                earlier_fills,
                FrameFill { frame, source: 0, copied: 0 },
            );
            lemma_ordered_widen(start.frames(), start.cursor(), before.cursor() + 1, space.cursor(), fills@);
            let longer = fresh.push(frame);
            assert(fills@ =~= old(fills)@ + zero_fills(longer));
            assert(list@ =~= old(list)@ + zero_entries(virt_base.0, longer));
            fresh = longer;
        }
        i = i + 1;
    }
    proof {
        lemma_zero_fills_frames(old(fills)@, fresh);
    }
    Ok(())
}

/// The allocator has handed the frame out since `start`.
pub open spec fn taken_since(start: AddressSpace, space: AddressSpace, frame: u64) -> bool {
    exists|n: int|
        start.cursor() <= n < space.cursor() && n < start.frames().len() && #[trigger] start.frames()[n]
            == frame
}

/// The frame of every fill from place `from` on is one that the allocator
/// has handed out since `start`.
pub open spec fn fills_fresh(start: AddressSpace, space: AddressSpace, fills: Seq<FrameFill>, from: int) -> bool {
    forall|k: int| from <= k < fills.len() ==> taken_since(start, space, (#[trigger] fills[k]).frame)
}

/// A frame handed out since `start` stays handed out as the allocator goes
/// on.
pub proof fn lemma_taken_stays(start: AddressSpace, earlier: AddressSpace, later: AddressSpace, frame: u64)
    requires
        taken_since(start, earlier, frame),
        earlier.cursor() <= later.cursor(),
    ensures
        taken_since(start, later, frame),
{
    let n = choose|n: int|
        start.cursor() <= n < earlier.cursor() && n < start.frames().len() && #[trigger] start.frames()[n]
            == frame;
    assert(start.frames()[n] == frame);
}

/// The frames of the fills were handed out one after the other: each is
/// the frame at a place of `frames` from `lo` on and below `hi`, and the
/// places rise with the fills.
pub open spec fn fills_ordered(frames: Seq<u64>, lo: int, hi: int, fills: Seq<FrameFill>) -> bool
    decreases fills.len(),
{
    if fills.len() == 0 {
        lo <= hi
    } else {
        exists|n: int|
            lo <= n < hi && n < frames.len() && #[trigger] frames[n] == fills.last().frame
                && fills_ordered(frames, lo, n, fills.drop_last())
    }
}

/// No two fills have the same frame.
pub open spec fn fills_distinct(fills: Seq<FrameFill>) -> bool {
    forall|j: int, k: int|
        0 <= j < k < fills.len() ==> (#[trigger] fills[j]).frame != (#[trigger] fills[k]).frame
}

/// Fills that are in order below `hi` are in order below any later place.
pub proof fn lemma_ordered_widen(frames: Seq<u64>, lo: int, hi: int, later: int, fills: Seq<FrameFill>)
    requires
        fills_ordered(frames, lo, hi, fills),
        hi <= later,
    ensures
        fills_ordered(frames, lo, later, fills),
{
    if fills.len() > 0 {
        let n = choose|n: int|
            lo <= n < hi && n < frames.len() && #[trigger] frames[n] == fills.last().frame
                && fills_ordered(frames, lo, n, fills.drop_last());
        assert(frames[n] == fills.last().frame);
    }
}

/// A fill of the frame at place `n` joins fills that are in order below
/// `n`.
pub proof fn lemma_ordered_push(frames: Seq<u64>, lo: int, n: int, fills: Seq<FrameFill>, fill: FrameFill)
    requires
        fills_ordered(frames, lo, n, fills),
        lo <= n < frames.len(),
        frames[n] == fill.frame,
    ensures
        fills_ordered(frames, lo, n + 1, fills.push(fill)),
{
    let longer = fills.push(fill);
    assert(longer.drop_last() =~= fills);
    assert(frames[n] == longer.last().frame);
}

/// Each of the fills in order has its frame at a place from `lo` on and
/// below `hi`.
pub proof fn lemma_ordered_within(frames: Seq<u64>, lo: int, hi: int, fills: Seq<FrameFill>, k: int)
    requires
        fills_ordered(frames, lo, hi, fills),
        0 <= k < fills.len(),
    ensures
        exists|n: int| lo <= n < hi && n < frames.len() && #[trigger] frames[n] == fills[k].frame,
    decreases fills.len(),
{
    let n = choose|n: int|
        lo <= n < hi && n < frames.len() && #[trigger] frames[n] == fills.last().frame
            && fills_ordered(frames, lo, n, fills.drop_last());
    if k == fills.len() - 1 {
        assert(frames[n] == fills[k].frame);
    } else {
        lemma_ordered_within(frames, lo, n, fills.drop_last(), k);
        let m = choose|m: int|
            lo <= m < n && m < frames.len() && #[trigger] frames[m] == fills.drop_last()[k].frame;
        assert(frames[m] == fills[k].frame);
    }
}

/// Fills in order have frames that the allocator handed out since `start`,
/// and no two have the same frame.
pub proof fn lemma_ordered_fresh(start: AddressSpace, space: AddressSpace, fills: Seq<FrameFill>)
    requires
        start.wf(),
        fills_ordered(start.frames(), start.cursor(), space.cursor(), fills),
    ensures
        fills_fresh(start, space, fills, 0),
        fills_distinct(fills),
    decreases fills.len(),
{
    let frames = start.frames();
    assert forall|k: int| 0 <= k < fills.len() implies taken_since(
        start,
        space,
        (#[trigger] fills[k]).frame,
    ) by {
        lemma_ordered_within(frames, start.cursor(), space.cursor(), fills, k);
        let n = choose|n: int|
            start.cursor() <= n < space.cursor() && n < frames.len() && #[trigger] frames[n]
                == fills[k].frame;
        assert(start.frames()[n] == fills[k].frame);
    }
    if fills.len() > 0 {
        let n = choose|n: int|
            start.cursor() <= n < space.cursor() && n < frames.len() && #[trigger] frames[n]
                == fills.last().frame && fills_ordered(frames, start.cursor(), n, fills.drop_last());
        lemma_ordered_widen(frames, start.cursor(), n, space.cursor(), fills.drop_last());
        lemma_ordered_fresh(start, space, fills.drop_last());
        assert forall|j: int, k: int| 0 <= j < k < fills.len() implies (#[trigger] fills[j]).frame
            != (#[trigger] fills[k]).frame by {
            if k == fills.len() - 1 {
                lemma_ordered_within(frames, start.cursor(), n, fills.drop_last(), j);
                let m = choose|m: int|
                    start.cursor() <= m < n && m < frames.len() && #[trigger] frames[m]
                        == fills.drop_last()[j].frame;
                start.lemma_frames_apart(m, n);
            } else {
                assert(fills.drop_last()[j] == fills[j] && fills.drop_last()[k] == fills[k]);
            }
        }
    }
}

/// What is wrong with a program header before anything is mapped for it: a
/// thread-local-storage segment; for a segment to load, a place in the
/// image beyond the address range, a virtual address with data in bits 48
/// to 63, or an end of its file bytes or of its zero bytes beyond 64 bits.
pub open spec fn segment_obstacle(h: ProgramHeader, kernel: u64) -> Option<LoadError> {
    if h.kind == SegmentKind::Tls {
        Some(LoadError::UnsupportedTls)
    } else if h.kind != SegmentKind::Load {
        None
    } else if kernel + h.offset + h.file_size > u64::MAX {
        Some(LoadError::AddressOverflow)
    } else if !accepted_by_check(h.virtual_addr) {
        Some(LoadError::BadVirtualAddress)
    } else if h.file_size != 0 && h.file_size - 1 + segment_start(h) % 4096 > u64::MAX {
        Some(LoadError::AddressOverflow)
    } else if h.mem_size > h.file_size && (segment_start(h) + h.mem_size > u64::MAX || (
    zero_page_count(h) > 0 && zero_start(h) + shared_zero_bytes(h) > u64::MAX)) {
        Some(LoadError::AddressOverflow)
    } else {
        None
    }
}

/// The list after the segment is mapped, where `list` was there before and
/// `fresh` are the fresh frames taken for the segment, in the order in
/// which they were taken. The pages of the segment's part of the file join
/// the list, each mapped to the image frame under it. Where file bytes and
/// zero bytes share a page, every page of the file in the list that was
/// first mapped to the image frame of the last file byte points to the
/// first fresh frame. The whole pages of zeros follow, each on a fresh frame
/// of its own.
pub open spec fn segment_list(list: Seq<MappedEntry>, h: ProgramHeader, kernel: u64, fresh: Seq<u64>) -> Seq<
    MappedEntry,
> {
    if h.kind != SegmentKind::Load {
        list
    } else {
        let filed = list + file_entries(
            page_base(segment_start(h)),
            page_base((kernel + h.offset) as u64),
            file_page_count(h),
        );
        if h.mem_size <= h.file_size {
            filed
        } else if tail_bytes(h) != 0 {
            retargeted(filed, last_file_frame(h, kernel), fresh[0]) + zero_entries(
                zero_base(h),
                fresh.skip(1),
            )
        } else {
            filed + zero_entries(zero_base(h), fresh)
        }
    }
}

/// The fills that the segment asks for, where `fresh` are the fresh frames
/// taken for it: where file bytes and zero bytes share a page, the first
/// frame gets the file bytes of that page from the image and zeros behind
/// them; every other frame is zeroed.
pub open spec fn segment_fills(h: ProgramHeader, kernel: u64, fresh: Seq<u64>) -> Seq<FrameFill> {
    if has_tail(h) {
        seq![
            FrameFill { frame: fresh[0], source: last_file_frame(h, kernel), copied: tail_bytes(h) as u64 },
        ] + zero_fills(fresh.skip(1))
    } else {
        zero_fills(fresh)
    }
}

/// The number of pages of zeros that `fresh` frames of the segment serve:
/// all of them but the one for the page that file bytes and zero bytes
/// share.
pub open spec fn zero_pages_served(h: ProgramHeader, fresh: Seq<u64>) -> int {
    if tail_bytes(h) != 0 {
        fresh.len() - 1
    } else {
        fresh.len() as int
    }
}

/// The mapping of a segment whose header is in order halted in `after`
/// with the error `e`, and `list` is what was mapped until then, where
/// `earlier` was mapped before the segment and `fresh` are the fresh frames
/// taken for it. It halted at a page of the segment's part of the file,
/// with the pages before it in the list; or at the fresh frame for the
/// page that file bytes and zero bytes share, with the pages of the file in
/// the list; or at a page of zeros, with the list as `segment_list` gives
/// it for the frames taken.
pub open spec fn segment_halted(
    after: AddressSpace,
    earlier: Seq<MappedEntry>,
    list: Seq<MappedEntry>,
    h: ProgramHeader,
    kernel: u64,
    fresh: Seq<u64>,
    e: LoadError,
) -> bool {
    let virt_base = page_base(segment_start(h));
    let phys_base = page_base((kernel + h.offset) as u64);
    &&& h.kind == SegmentKind::Load
    &&& {
        ||| exists|i: int|
            0 <= i < file_page_count(h) && list == earlier + file_entries(virt_base, phys_base, i)
                && #[trigger] file_cause(after, virt_base, phys_base, i, e)
        ||| has_tail(h) && list == earlier + file_entries(virt_base, phys_base, file_page_count(h))
            && e == LoadError::OutOfMemory && frames_spent(after)
        ||| h.mem_size > h.file_size && 0 <= zero_pages_served(h, fresh) < zero_page_count(h) && list
            == segment_list(earlier, h, kernel, fresh) && zero_cause(
            after,
            zero_base(h),
            zero_pages_served(h, fresh),
            e,
        )
    }
}

/// Takes the fresh frame for the page that file bytes and zero bytes share,
/// points the pages of the file on `image_frame` to it, and notes the fill.
fn map_tail(
    space: &mut AddressSpace,
    list: &mut Vec<MappedEntry>,
    fills: &mut Vec<FrameFill>,
    image_frame: u64,
    tail: u64,
    Ghost(start): Ghost<AddressSpace>,
) -> (r: Result<(), LoadError>)
    requires
        image_inv(start, *old(space), old(list)@),
        fills_ordered(start.frames(), start.cursor(), old(space).cursor(), old(fills)@),
    ensures
        image_inv(start, *final(space), final(list)@),
        fills_ordered(start.frames(), start.cursor(), final(space).cursor(), final(fills)@),
        final(space).cursor() >= old(space).cursor(),
        match r {
            Ok(()) => {
                &&& final(fills)@.len() == old(fills)@.len() + 1
                &&& final(fills)@ == old(fills)@.push(
                    FrameFill {
                        frame: final(fills)@[old(fills)@.len() as int].frame,
                        source: image_frame,
                        copied: tail,
                    },
                )
                &&& final(list)@ == retargeted(
                    old(list)@,
                    image_frame,
                    final(fills)@[old(fills)@.len() as int].frame,
                )
            },
            Err(e) => e == LoadError::OutOfMemory && frames_spent(*final(space)) && final(fills)@
                == old(fills)@ && final(list)@ == old(list)@,
        },
{
    if space.next_frame_index() == usize::MAX {
        return Err(LoadError::OutOfMemory);
    }
    let ghost before = *space;
    let allocated = space.allocate_frame();
    proof {
        assert forall|other: VirtAddr| #[trigger]
            space.translation(other) == before.translation(other) by {}
        lemma_ordered_widen(start.frames(), start.cursor(), before.cursor(), space.cursor(), fills@);
    }
    let frame = match allocated {
        Some(frame) => frame,
        None => {
            return Err(LoadError::OutOfMemory);
        },
    };
    let ghost taken = *space;
    proof {
        assert(start.frames() == before.frames());
        assert(start.frames()[before.cursor()] == frame);
    }
    remap_listed(space, list, image_frame, frame, Ghost(start));
    fills.push(FrameFill { frame, source: image_frame, copied: tail });
    proof {
        lemma_ordered_push(
            start.frames(),
            start.cursor(),
            before.cursor(),
            old(fills)@,
            FrameFill { frame, source: image_frame, copied: tail },
        );
        lemma_ordered_widen(start.frames(), start.cursor(), before.cursor() + 1, space.cursor(), fills@);
    }
    Ok(())
}

#[verifier::rlimit(40)]
fn map_segment(
    space: &mut AddressSpace,
    list: &mut Vec<MappedEntry>,
    fills: &mut Vec<FrameFill>,
    header: &ProgramHeader,
    kernel: u64,
    Ghost(start): Ghost<AddressSpace>,
) -> (r: Result<(), LoadError>)
    requires
        image_inv(start, *old(space), old(list)@),
        fills_ordered(start.frames(), start.cursor(), old(space).cursor(), old(fills)@),
    ensures
        image_inv(start, *final(space), final(list)@),
        fills_ordered(start.frames(), start.cursor(), final(space).cursor(), final(fills)@),
        fills_extend(old(fills)@, final(fills)@),
        final(space).cursor() >= old(space).cursor(),
        match r {
            Ok(()) => {
                &&& segment_obstacle(*header, kernel) is None
                &&& final(fills)@.len() == old(fills)@.len() + fresh_count(*header)
                &&& final(fills)@ == old(fills)@ + segment_fills(
                    *header,
                    kernel,
                    new_frames(old(fills)@.len() as int, final(fills)@),
                )
                &&& final(list)@ == segment_list(
                    old(list)@,
                    *header,
                    kernel,
                    new_frames(old(fills)@.len() as int, final(fills)@),
                )
            },
            Err(e) => match segment_obstacle(*header, kernel) {
                Some(obstacle) => e == obstacle && final(list)@ == old(list)@,
                None => segment_halted(
                    *final(space),
                    old(list)@,
                    final(list)@,
                    *header,
                    kernel,
                    new_frames(old(fills)@.len() as int, final(fills)@),
                    e,
                ),
            },
        },
{
    match header.kind {
        SegmentKind::Tls => {
            return Err(LoadError::UnsupportedTls);
        },
        SegmentKind::Other => {
            assert(fills@ =~= old(fills)@ + segment_fills(
                *header,
                kernel,
                new_frames(old(fills)@.len() as int, fills@),
            ));
            return Ok(());
        },
        SegmentKind::Load => {},
    }
    let phys_start = match kernel.checked_add(header.offset) {
        Some(p) => p,
        None => {
            return Err(LoadError::AddressOverflow);
        },
    };
    let phys_end = match phys_start.checked_add(header.file_size) {
        Some(p) => p,
        None => {
            return Err(LoadError::AddressOverflow);
        },
    };
    let virt = match VirtAddr::new_checked(header.virtual_addr) {
        Ok(virt) => virt,
        Err(_) => {
            return Err(LoadError::BadVirtualAddress);
        },
    };
    assert(virt.0 == segment_start(*header));
    let virt_base = align_down(virt);
    let phys_base = align_down_u64(phys_start);
    let file_pages: u64 = if header.file_size != 0 {
        match (header.file_size - 1).checked_add(virt.0 - virt_base.0) {
            Some(spread) => 1 + spread / 4096,
            None => {
                return Err(LoadError::AddressOverflow);
            },
        }
    } else {
        0
    };
    assert(file_pages == file_page_count(*header));
    let mut tail: u64 = 0;
    let mut zero_pages: u64 = 0;
    let mut zero_from = virt;
    if header.mem_size > header.file_size {
        match virt.offset(header.mem_size) {
            Ok(_) => {},
            Err(_) => {
                return Err(LoadError::AddressOverflow);
            },
        }
        let zero_first = match virt.offset(header.file_size) {
            Ok(v) => v,
            Err(_) => {
                return Err(LoadError::AddressOverflow);
            },
        };
        assert(zero_first.0 == zero_start(*header));
        tail = zero_first.0 % 4096;
        let covered: u64 = if tail != 0 {
            4096 - tail
        } else {
            0
        };
        assert(covered == shared_zero_bytes(*header));
        if header.mem_size - header.file_size > covered {
            let bytes = header.mem_size - header.file_size - covered;
            zero_pages = bytes / 4096 + if bytes % 4096 != 0 {
                1
            } else {
                0
            };
        }
        assert(zero_pages == zero_page_count(*header));
        if zero_pages > 0 {
            zero_from = match zero_first.offset(covered) {
                Ok(v) => v,
                Err(_) => {
                    return Err(LoadError::AddressOverflow);
                },
            };
            assert(zero_from.0 == zero_base(*header));
        }
    }
    assert(segment_obstacle(*header, kernel) is None);
    assert(tail == (if header.mem_size > header.file_size {
        tail_bytes(*header)
    } else {
        0
    }));
    match map_file_pages(space, list, virt_base, phys_base, file_pages, Ghost(start)) {
        Ok(()) => {},
        Err(e) => {
            assert(new_frames(old(fills)@.len() as int, fills@) =~= Seq::<u64>::empty());
            return Err(e);
        },
    }
    let ghost filed = list@;
    let ghost filed_space = *space;
    proof {
        lemma_ordered_widen(start.frames(), start.cursor(), old(space).cursor(), space.cursor(), fills@);
    }
    if header.mem_size <= header.file_size {
        assert(fills@ =~= old(fills)@ + segment_fills(
            *header,
            kernel,
            new_frames(old(fills)@.len() as int, fills@),
        ));
        return Ok(());
    }
    if tail != 0 {
        let image_frame = align_down_u64(
            if phys_end >= 1 {
                phys_end - 1
            } else {
                0
            },
        );
        assert(image_frame == last_file_frame(*header, kernel));
        match map_tail(space, list, fills, image_frame, tail, Ghost(start)) {
            Ok(()) => {},
            Err(e) => {
                assert(new_frames(old(fills)@.len() as int, fills@) =~= Seq::<u64>::empty());
                return Err(e);
            },
        }
    }
    let ghost tailed = list@;
    let ghost tail_fills = fills@;
    let zeroed = if zero_pages > 0 {
        map_zero_pages(space, list, fills, zero_from, zero_pages, Ghost(start))
    } else {
        Ok(())
    };
    proof {
        let fresh = new_frames(old(fills)@.len() as int, fills@);
        let zeros = new_frames(tail_fills.len() as int, fills@);
        if zero_pages == 0 {
            assert(fills@ =~= tail_fills);
            assert(zeros =~= Seq::<u64>::empty());
            assert(list@ =~= tailed + zero_entries(zero_base(*header), zeros));
        }
        assert(fills@ =~= tail_fills + zero_fills(zeros));
        if tail != 0 {
            assert(fresh.skip(1) =~= zeros);
            assert(fresh[0] == tail_fills[old(fills)@.len() as int].frame);
            assert(fills@ =~= old(fills)@ + segment_fills(*header, kernel, fresh));
        } else {
            assert(tail_fills == old(fills)@);
            assert(fresh =~= zeros);
            assert(fills@ =~= old(fills)@ + segment_fills(*header, kernel, fresh));
        }
        assert(list@ == segment_list(old(list)@, *header, kernel, fresh));
        assert(zero_pages_served(*header, fresh) == zeros.len());
    }
    match zeroed {
        Ok(()) => Ok(()),
        Err(e) => Err(e),
    }
}

/// The number of fills that the first `x` headers ask for.
pub open spec fn fills_before(headers: Seq<ProgramHeader>, x: int) -> int
    decreases x,
{
    if x <= 0 {
        0
    } else {
        fills_before(headers, x - 1) + fresh_count(headers[x - 1])
    }
}

/// The fresh frames of header `y`, read from the fills of the image.
pub open spec fn header_fresh(headers: Seq<ProgramHeader>, fills: Seq<FrameFill>, y: int) -> Seq<u64> {
    fresh_of(fills, fills_before(headers, y), fresh_count(headers[y]))
}

/// The list of pages after the first `x` headers: the segments one after
/// the other, each with the fresh frames that `fills` names for it.
pub open spec fn image_list(headers: Seq<ProgramHeader>, kernel: u64, fills: Seq<FrameFill>, x: int) -> Seq<
    MappedEntry,
>
    decreases x,
{
    if x <= 0 {
        Seq::empty()
    } else {
        segment_list(
            image_list(headers, kernel, fills, x - 1),
            headers[x - 1],
            kernel,
            header_fresh(headers, fills, x - 1),
        )
    }
}

/// The fills after the first `x` headers, with the frames that `fills`
/// names.
pub open spec fn image_fills(headers: Seq<ProgramHeader>, kernel: u64, fills: Seq<FrameFill>, x: int) -> Seq<
    FrameFill,
>
    decreases x,
{
    if x <= 0 {
        Seq::empty()
    } else {
        image_fills(headers, kernel, fills, x - 1) + segment_fills(
            headers[x - 1],
            kernel,
            header_fresh(headers, fills, x - 1),
        )
    }
}

/// A segment takes no negative number of frames.
pub proof fn lemma_fills_before(headers: Seq<ProgramHeader>, x: int)
    ensures
        0 <= fills_before(headers, x),
        x > 0 ==> fills_before(headers, x - 1) <= fills_before(headers, x),
    decreases x,
{
    if x > 0 {
        lemma_fills_before(headers, x - 1);
    }
}

/// What the first `x` headers give rests on the fills that they ask for
/// alone: fills that join later change nothing of it.
pub proof fn lemma_image_prefix(
    headers: Seq<ProgramHeader>,
    kernel: u64,
    fills: Seq<FrameFill>,
    longer: Seq<FrameFill>,
    x: int,
)
    requires
        fills_extend(fills, longer),
        fills_before(headers, x) <= fills.len(),
    ensures
        image_list(headers, kernel, longer, x) == image_list(headers, kernel, fills, x),
        image_fills(headers, kernel, longer, x) == image_fills(headers, kernel, fills, x),
    decreases x,
{
    if x > 0 {
        lemma_fills_before(headers, x);
        lemma_fills_before(headers, x - 1);
        lemma_image_prefix(headers, kernel, fills, longer, x - 1);
        assert(header_fresh(headers, longer, x - 1) =~= header_fresh(headers, fills, x - 1));
    }
}

/// The mapping of the kernel image halted in `after` at the header at
/// place `x` with the error `e`, and `list` is what was mapped until then,
/// with the fresh frames that `fills` names: the headers before `x` are in
/// order and mapped as `image_list` says; the header at `x` is not in
/// order, or the mapping of its segment halted. Nothing but the pages of
/// the list has changed since `start`.
pub open spec fn image_halted(
    start: AddressSpace,
    after: AddressSpace,
    headers: Seq<ProgramHeader>,
    kernel: u64,
    x: int,
    list: Seq<MappedEntry>,
    fills: Seq<FrameFill>,
    e: LoadError,
) -> bool {
    &&& 0 <= x < headers.len()
    &&& forall|y: int| 0 <= y < x ==> segment_obstacle(#[trigger] headers[y], kernel) is None
    &&& image_inv(start, after, list)
    &&& fills_before(headers, x) <= fills.len()
    &&& match segment_obstacle(headers[x], kernel) {
        Some(obstacle) => e == obstacle && list == image_list(headers, kernel, fills, x),
        None => segment_halted(
            after,
            image_list(headers, kernel, fills, x),
            list,
            headers[x],
            kernel,
            new_frames(fills_before(headers, x), fills),
            e,
        ),
    }
}

/// Maps the kernel image that lies at the physical address `kernel`.
///
/// For each loadable program header with bytes in the file, the pages that
/// hold them are mapped to the image frames under them. Where the segment is
/// longer in memory than in the file, the rest is zero: if the zero bytes
/// start inside a page, a fresh frame is taken, every page of the file
/// mapped so far whose image frame holds the last file byte is pointed to
/// it, and the frame is to be filled with the file bytes of that page and
/// zeros; the whole pages after it are mapped to fresh frames that are to
/// be zeroed.
///
/// Returns the pages mapped and the frames to fill, which are what
/// `image_list` and `image_fills` give for the frames that the allocator
/// handed out. Fails at the first header that cannot be served, as
/// `image_halted` says; a thread-local-storage segment is one.
pub fn map_kernel(headers: &Vec<ProgramHeader>, kernel: u64, space: &mut AddressSpace) -> (r: Result<
    KernelImage,
    LoadError,
>)
    requires
        old(space).wf(),
    ensures
        final(space).wf(),
        final(space).root_frame() == old(space).root_frame(),
        final(space).frame_allocator().map() == old(space).frame_allocator().map(),
        final(space).frame_allocator().offset() == old(space).frame_allocator().offset(),
        final(space).cursor() >= old(space).cursor(),
        mappings_kept(*old(space), *final(space)),
        match r {
            Ok(image) => {
                &&& image_inv(*old(space), *final(space), image.mapped@)
                &&& forall|x: int|
                    0 <= x < headers@.len() ==> segment_obstacle(#[trigger] headers@[x], kernel) is None
                &&& image.fills@.len() == fills_before(headers@, headers@.len() as int)
                &&& image.fills@ == image_fills(headers@, kernel, image.fills@, headers@.len() as int)
                &&& image.mapped@ == image_list(headers@, kernel, image.fills@, headers@.len() as int)
                &&& fills_fresh(*old(space), *final(space), image.fills@, 0)
                &&& fills_distinct(image.fills@)
            },
            Err(e) => exists|x: int, list: Seq<MappedEntry>, fills: Seq<FrameFill>| #[trigger]
                image_halted(*old(space), *final(space), headers@, kernel, x, list, fills, e),
        },
{
    let ghost start = *space;
    let mut list: Vec<MappedEntry> = Vec::new();
    let mut fills: Vec<FrameFill> = Vec::new();
    let mut x: usize = 0;
    assert(list@ =~= image_list(headers@, kernel, fills@, 0));
    assert(fills@ =~= image_fills(headers@, kernel, fills@, 0));
    while x < headers.len()
        invariant
            image_inv(start, *space, list@),
            start == *old(space),
            x <= headers@.len(),
            forall|y: int| 0 <= y < x ==> segment_obstacle(#[trigger] headers@[y], kernel) is None,
            fills@.len() == fills_before(headers@, x as int),
            fills@ == image_fills(headers@, kernel, fills@, x as int),
            list@ == image_list(headers@, kernel, fills@, x as int),
            fills_ordered(start.frames(), start.cursor(), space.cursor(), fills@),
        decreases headers@.len() - x,
    {
        let ghost earlier_list = list@;
        let ghost earlier_fills = fills@;
        let header = headers[x];
        match map_segment(space, &mut list, &mut fills, &header, kernel, Ghost(start)) {
            Ok(()) => {},
            Err(e) => {
                proof {
                    lemma_image_keeps_mappings(start, *space, list@);
                    lemma_image_prefix(headers@, kernel, earlier_fills, fills@, x as int);
                    assert(image_halted(start, *space, headers@, kernel, x as int, list@, fills@, e));
                }
                return Err(e);
            },
        }
        proof {
            let fresh = new_frames(earlier_fills.len() as int, fills@);
            assert(fresh =~= header_fresh(headers@, fills@, x as int));
            assert(fills_extend(earlier_fills, fills@));
            lemma_image_prefix(headers@, kernel, earlier_fills, fills@, x as int);
        }
        x = x + 1;
    }
    proof {
        lemma_image_keeps_mappings(start, *space, list@);
        lemma_ordered_fresh(start, *space, fills@);
    }
    Ok(KernelImage { mapped: list, fills })
}

/// What was mapped before the kernel image is mapped as before after it.
pub proof fn lemma_image_keeps_mappings(start: AddressSpace, space: AddressSpace, list: Seq<MappedEntry>)
    requires
        image_inv(start, space, list),
    ensures
        mappings_kept(start, space),
{
    assert forall|other: VirtAddr| start.translation(other) is Some implies #[trigger]
        space.translation(other) == start.translation(other) by {
        assert forall|i: int| 0 <= i < list.len() implies !same_page(
            other.0,
            (#[trigger] list[i]).page.0,
        ) by {
            assert(start.translation(list[i].page) is None);
        }
        assert(outside_list(other.0, list));
    }
}

/// The direct map of the frames below `last_frame_addr` is made in `mid`,
/// and nothing else has changed since `before`.
pub open spec fn direct_made(before: AddressSpace, mid: AddressSpace, last_frame_addr: u64) -> bool {
    &&& run_mapped(mid, 0, VIRT_MAPPING_OFFSET, last_frame_addr as int / 4096)
    &&& rest_kept(before, mid, 0, VIRT_MAPPING_OFFSET, last_frame_addr as int / 4096)
}

/// The kernel image is mapped in `imaged` with the pages of `list` and the
/// fresh frames that `fills` names, and nothing else has changed since
/// `mid`.
pub open spec fn image_made(
    mid: AddressSpace,
    imaged: AddressSpace,
    headers: Seq<ProgramHeader>,
    kernel: u64,
    list: Seq<MappedEntry>,
    fills: Seq<FrameFill>,
) -> bool {
    &&& image_inv(mid, imaged, list)
    &&& forall|x: int| 0 <= x < headers.len() ==> segment_obstacle(#[trigger] headers[x], kernel) is None
    &&& list == image_list(headers, kernel, fills, headers.len() as int)
}

/// The laying out halted at the kernel image: the direct map was made in
/// `mid`, and from there the mapping of the image halted.
pub open spec fn halted_at_image(
    before: AddressSpace,
    after: AddressSpace,
    last_frame_addr: u64,
    headers: Seq<ProgramHeader>,
    kernel: u64,
    mid: AddressSpace,
    x: int,
    list: Seq<MappedEntry>,
    fills: Seq<FrameFill>,
    e: LoadError,
) -> bool {
    &&& direct_made(before, mid, last_frame_addr)
    &&& image_halted(mid, after, headers, kernel, x, list, fills, e)
}

/// The laying out halted at page `k` of the framebuffer: the direct map
/// was made in `mid`, the image was mapped in `imaged`, and from there the
/// run of the framebuffer stopped.
pub open spec fn halted_at_framebuffer(
    before: AddressSpace,
    after: AddressSpace,
    last_frame_addr: u64,
    headers: Seq<ProgramHeader>,
    kernel: u64,
    framebuffer: FrameBufferInfo,
    mid: AddressSpace,
    imaged: AddressSpace,
    list: Seq<MappedEntry>,
    fills: Seq<FrameFill>,
    k: int,
    e: LoadError,
) -> bool {
    &&& direct_made(before, mid, last_frame_addr)
    &&& image_made(mid, imaged, headers, kernel, list, fills)
    &&& 0 <= k < framebuffer.size as int / 4096
    &&& run_stopped(imaged, after, framebuffer.addr, VIRT_MAPPING_OFFSET, true, k, e)
}

/// The laying out halted at the page of the routine that switches to the
/// new tables: the direct map was made in `mid`, the image was mapped in
/// `imaged`, the framebuffer is mapped in `after`, and the page has the
/// obstacle `e`.
pub open spec fn halted_at_switch(
    before: AddressSpace,
    after: AddressSpace,
    last_frame_addr: u64,
    headers: Seq<ProgramHeader>,
    kernel: u64,
    framebuffer: FrameBufferInfo,
    context_switch_addr: u64,
    mid: AddressSpace,
    imaged: AddressSpace,
    list: Seq<MappedEntry>,
    fills: Seq<FrameFill>,
    e: LoadError,
) -> bool {
    &&& direct_made(before, mid, last_frame_addr)
    &&& image_made(mid, imaged, headers, kernel, list, fills)
    &&& run_mapped(after, framebuffer.addr, VIRT_MAPPING_OFFSET, framebuffer.size as int / 4096)
    &&& rest_kept(imaged, after, framebuffer.addr, VIRT_MAPPING_OFFSET, framebuffer.size as int / 4096)
    &&& identity_obstacle(after, context_switch_addr) == Some(e)
}

/// The laying out of the mappings stopped in `after` with the error `e`:
/// at a page of the direct map; or, with the direct map made, at a header
/// of the kernel image; or, with the image mapped too, at a page of the
/// framebuffer; or, with all of these mapped, at the page of the routine
/// that switches to the new tables. Each step changed only its own pages.
pub open spec fn setup_stopped(
    before: AddressSpace,
    after: AddressSpace,
    last_frame_addr: u64,
    headers: Seq<ProgramHeader>,
    kernel: u64,
    framebuffer: FrameBufferInfo,
    context_switch_addr: u64,
    e: LoadError,
) -> bool {
    ||| exists|k: int|
        0 <= k < last_frame_addr as int / 4096 && #[trigger] run_stopped(
            before,
            after,
            0,
            VIRT_MAPPING_OFFSET,
            false,
            k,
            e,
        )
    ||| exists|mid: AddressSpace, x: int, list: Seq<MappedEntry>, fills: Seq<FrameFill>| #[trigger]
        halted_at_image(before, after, last_frame_addr, headers, kernel, mid, x, list, fills, e)
    ||| exists|
        mid: AddressSpace,
        imaged: AddressSpace,
        list: Seq<MappedEntry>,
        fills: Seq<FrameFill>,
        k: int,
    | #[trigger]
        halted_at_framebuffer(
            before,
            after,
            last_frame_addr,
            headers,
            kernel,
            framebuffer,
            mid,
            imaged,
            list,
            fills,
            k,
            e,
        )
    ||| exists|mid: AddressSpace, imaged: AddressSpace, list: Seq<MappedEntry>, fills: Seq<FrameFill>| #[trigger]
        halted_at_switch(
            before,
            after,
            last_frame_addr,
            headers,
            kernel,
            framebuffer,
            context_switch_addr,
            mid,
            imaged,
            list,
            fills,
            e,
        )
}

/// Lays out everything the kernel needs mapped before it runs: the direct
/// map of the frames below `last_frame_addr`, the kernel image, the
/// framebuffer, and the page of the routine at `context_switch_addr` that
/// switches to the new tables. Returns the kernel's entry point and what
/// `map_kernel` returns.
///
/// Fails with `BadVirtualAddress`, before anything is mapped, where the
/// entry point has data in bits 48 to 63, and else at the first of these
/// mappings that cannot be made.
pub fn setup_mappings(
    last_frame_addr: u64,
    space: &mut AddressSpace,
    headers: &Vec<ProgramHeader>,
    entry_point: u64,
    kernel: u64,
    framebuffer: &FrameBufferInfo,
    context_switch_addr: u64,
) -> (r: Result<(VirtAddr, KernelImage), LoadError>)
    requires
        old(space).wf(),
    ensures
        final(space).wf(),
        final(space).root_frame() == old(space).root_frame(),
        final(space).frame_allocator().map() == old(space).frame_allocator().map(),
        final(space).frame_allocator().offset() == old(space).frame_allocator().offset(),
        mappings_kept(*old(space), *final(space)),
        match r {
            Ok((entry, image)) => {
                &&& accepted_by_check(entry_point)
                &&& entry.0 == sign_extend(entry_point)
                &&& run_mapped(*final(space), 0, VIRT_MAPPING_OFFSET, last_frame_addr as int / 4096)
                &&& all_listed(*final(space), image.mapped@)
                &&& forall|x: int|
                    0 <= x < headers@.len() ==> segment_obstacle(#[trigger] headers@[x], kernel) is None
                &&& image.fills@.len() == fills_before(headers@, headers@.len() as int)
                &&& image.fills@ == image_fills(headers@, kernel, image.fills@, headers@.len() as int)
                &&& image.mapped@ == image_list(headers@, kernel, image.fills@, headers@.len() as int)
                &&& fills_fresh(*old(space), *final(space), image.fills@, 0)
                &&& fills_distinct(image.fills@)
                &&& run_mapped(
                    *final(space),
                    framebuffer.addr,
                    VIRT_MAPPING_OFFSET,
                    framebuffer.size as int / 4096,
                )
                &&& identity_mapped(*final(space), context_switch_addr)
            },
            Err(e) => if !accepted_by_check(entry_point) {
                e == LoadError::BadVirtualAddress && final(space).cursor() == old(space).cursor()
            } else {
                setup_stopped(
                    *old(space),
                    *final(space),
                    last_frame_addr,
                    headers@,
                    kernel,
                    *framebuffer,
                    context_switch_addr,
                    e,
                )
            },
        },
{
    let entry = match VirtAddr::new_checked(entry_point) {
        Ok(entry) => entry,
        Err(_) => {
            return Err(LoadError::BadVirtualAddress);
        },
    };
    match map_all_memory(last_frame_addr, space) {
        Ok(()) => {},
        Err(e) => {
            return Err(e);
        },
    }
    let ghost direct = *space;
    let image = match map_kernel(headers, kernel, space) {
        Ok(image) => image,
        Err(e) => {
            proof {
                let (x, list, fills) = choose|x: int, list: Seq<MappedEntry>, fills: Seq<FrameFill>| #[trigger]
                    image_halted(direct, *space, headers@, kernel, x, list, fills, e);
                assert(halted_at_image(
                    *old(space),
                    *space,
                    last_frame_addr,
                    headers@,
                    kernel,
                    direct,
                    x,
                    list,
                    fills,
                    e,
                ));
            }
            return Err(e);
        },
    };
    let ghost imaged = *space;
    proof {
        lemma_run_stays(direct, imaged, 0, VIRT_MAPPING_OFFSET, last_frame_addr as int / 4096);
    }
    match map_framebuffer(framebuffer, space) {
        Ok(()) => {},
        Err(e) => {
            proof {
                let k = choose|k: int|
                    0 <= k < framebuffer.size as int / 4096 && #[trigger] run_stopped(
                        imaged,
                        *space,
                        framebuffer.addr,
                        VIRT_MAPPING_OFFSET,
                        true,
                        k,
                        e,
                    );
                assert(halted_at_framebuffer(
                    *old(space),
                    *space,
                    last_frame_addr,
                    headers@,
                    kernel,
                    *framebuffer,
                    direct,
                    imaged,
                    image.mapped@,
                    image.fills@,
                    k,
                    e,
                ));
            }
            return Err(e);
        },
    }
    let ghost framed = *space;
    proof {
        lemma_run_stays(imaged, framed, 0, VIRT_MAPPING_OFFSET, last_frame_addr as int / 4096);
        lemma_taken_all_stay(*old(space), direct, imaged, framed, image.fills@);
    }
    match map_identity_page(context_switch_addr, space) {
        Ok(()) => {},
        Err(e) => {
            proof {
                lemma_same_state(framed, *space);
                lemma_run_stays(
                    framed,
                    *space,
                    framebuffer.addr,
                    VIRT_MAPPING_OFFSET,
                    framebuffer.size as int / 4096,
                );
                assert(halted_at_switch(
                    *old(space),
                    *space,
                    last_frame_addr,
                    headers@,
                    kernel,
                    *framebuffer,
                    context_switch_addr,
                    direct,
                    imaged,
                    image.mapped@,
                    image.fills@,
                    e,
                ));
            }
            return Err(e);
        },
    }
    proof {
        lemma_run_stays(framed, *space, 0, VIRT_MAPPING_OFFSET, last_frame_addr as int / 4096);
        lemma_run_stays(
            framed,
            *space,
            framebuffer.addr,
            VIRT_MAPPING_OFFSET,
            framebuffer.size as int / 4096,
        );
        lemma_taken_all_stay(*old(space), *old(space), framed, *space, image.fills@);
        assert forall|i: int| 0 <= i < image.mapped@.len() implies space.translation(
            (#[trigger] image.mapped@[i]).page,
        ) == Some(image.mapped@[i].target) by {
            let page = image.mapped@[i].page;
            assert(imaged.translation(page) is Some);
            assert(framed.translation(page) == imaged.translation(page));
        }
    }
    Ok((entry, image))
}

/// A run that is mapped stays mapped where every mapping is kept.
pub proof fn lemma_run_stays(before: AddressSpace, after: AddressSpace, phys_base: u64, delta: u64, n: int)
    requires
        run_mapped(before, phys_base, delta, n),
        mappings_kept(before, after),
    ensures
        run_mapped(after, phys_base, delta, n),
{
    assert forall|i: int| 0 <= i < n implies after.translation(
        #[trigger] run_page(phys_base, delta, i),
    ) == Some(run_frame(phys_base, i)) by {
        assert(before.translation(run_page(phys_base, delta, i)) is Some);
    }
}

/// The frames of the fills stay handed out as the allocator goes on, and
/// were handed out since any earlier state of the same allocator.
pub proof fn lemma_taken_all_stay(
    start: AddressSpace,
    middle: AddressSpace,
    earlier: AddressSpace,
    later: AddressSpace,
    fills: Seq<FrameFill>,
)
    requires
        fills_fresh(middle, earlier, fills, 0),
        start.frames() == middle.frames(),
        start.cursor() <= middle.cursor(),
        earlier.cursor() <= later.cursor(),
    ensures
        fills_fresh(start, later, fills, 0),
{
    assert forall|k: int| 0 <= k < fills.len() implies taken_since(
        start,
        later,
        (#[trigger] fills[k]).frame,
    ) by {
        let frame = fills[k].frame;
        let n = choose|n: int|
            middle.cursor() <= n < earlier.cursor() && n < middle.frames().len()
                && #[trigger] middle.frames()[n] == frame;
        assert(start.frames()[n] == frame);
    }
}

} // verus!
