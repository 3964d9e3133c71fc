use rust_os::shared::addr::VirtAddr;
use rust_os::shared::frame_allocator::{FrameAllocator, MemoryMap, MemoryRegion, MemoryType};
use rust_os::shared::page_table::{
    align_down, align_down_u64, AddressSpace, MapError, PageTable, PageTableEntry, TableSlot,
    PRESENT, WRITABLE,
};

fn map_with(regions: &[(MemoryType, u64, usize)]) -> MemoryMap {
    let mut map = MemoryMap::new();
    for &(ty, addr, page_count) in regions {
        assert!(map.push(MemoryRegion { ty, addr, page_count }));
    }
    map
}

fn space_with_frames(frames: usize) -> AddressSpace {
    let map = map_with(&[(MemoryType::Free, 0x10_0000, frames)]);
    AddressSpace::new(FrameAllocator::new(map, 0, 0)).unwrap()
}

#[test]
fn map_translate_remap_translate() {
    let mut space = space_with_frames(16);
    let virt = VirtAddr::new(0xffff_8000_001a_3000);
    assert_eq!(space.translate(virt), None);
    assert_eq!(space.map_address(virt, 0x7000_0000), Ok(()));
    assert_eq!(space.translate(virt), Some(0x7000_0000));
    assert_eq!(space.flags_of(virt), Some(PRESENT | WRITABLE));
    assert_eq!(space.remap_address(virt, 0x7000_2000), Ok(()));
    assert_eq!(space.translate(virt), Some(0x7000_2000));
    assert_eq!(space.flags_of(virt), Some(PRESENT | WRITABLE));
}

#[test]
fn mapping_twice_fails_and_changes_nothing() {
    let mut space = space_with_frames(16);
    let virt = VirtAddr::new(0x4000_1000);
    assert_eq!(space.map_address(virt, 0x5000), Ok(()));
    let cursor = space.next_frame_index();
    assert_eq!(space.map_address(virt, 0x6000), Err(MapError::MappingExists));
    assert_eq!(space.translate(virt), Some(0x5000));
    assert_eq!(space.next_frame_index(), cursor);
}

#[test]
fn first_mapping_takes_three_tables_and_a_neighbour_none() {
    let mut space = space_with_frames(16);
    assert_eq!(space.next_frame_index(), 1);
    assert_eq!(space.map_address(VirtAddr::new(0x4000_1000), 0x5000), Ok(()));
    assert_eq!(space.next_frame_index(), 4);
    assert_eq!(space.map_address(VirtAddr::new(0x4000_2000), 0x6000), Ok(()));
    assert_eq!(space.next_frame_index(), 4);
    assert_eq!(space.translate(VirtAddr::new(0x4000_1000)), Some(0x5000));
    assert_eq!(space.translate(VirtAddr::new(0x4000_2000)), Some(0x6000));
    assert_eq!(space.translate(VirtAddr::new(0x4000_3000)), None);
}

#[test]
fn mapping_without_frames_is_out_of_memory() {
    let mut space = space_with_frames(3);
    let virt = VirtAddr::new(0x4000_1000);
    assert_eq!(space.map_address(virt, 0x5000), Err(MapError::OutOfMemory));
    assert_eq!(space.next_frame_index(), 1);
    assert_eq!(space.translate(virt), None);
}

#[test]
fn remap_of_unmapped_page_fails() {
    let mut space = space_with_frames(16);
    assert_eq!(
        space.remap_address(VirtAddr::new(0x4000_1000), 0x5000),
        Err(MapError::NotMapped)
    );
}

#[test]
fn unreachable_table_frame_is_a_bad_virtual_address() {
    let map = map_with(&[(MemoryType::Free, 0x10_0000, 16)]);
    let allocator = FrameAllocator::new(map, 0x1000_0000_0000_0000, 0);
    assert!(matches!(AddressSpace::new(allocator), Err(MapError::BadVirtualAddress)));
    let mut space = space_with_frames(16);
    assert_eq!(
        space.map_address_with_offset(VirtAddr::new(0x1000), 0x5000, 0x1000_0000_0000_0000),
        Err(MapError::BadVirtualAddress)
    );
}

#[test]
fn overlapping_memory_map_is_refused() {
    let map = map_with(&[(MemoryType::Free, 0x1000, 4), (MemoryType::Free, 0x2000, 1)]);
    assert!(!map.is_valid());
    assert!(matches!(
        AddressSpace::new(FrameAllocator::new(map, 0, 0)),
        Err(MapError::InvalidMemoryMap)
    ));
}

#[test]
fn entry_holds_address_and_flags() {
    let mut entry = PageTableEntry::new();
    assert!(entry.is_unused());
    entry.set(0x7000_2000, PRESENT | WRITABLE);
    assert!(entry.is_present());
    assert_eq!(entry.addr(), 0x7000_2000);
    assert_eq!(entry.flags(), 3);
    entry.clear();
    assert!(!entry.is_present());
}

#[test]
fn align_down_rounds_to_the_page() {
    assert_eq!(align_down_u64(0x1234_5678), 0x1234_5000);
    assert_eq!(align_down(VirtAddr::new(0xffff_8000_001a_3fff)).0, 0xffff_8000_001a_3000);
}

fn tables_of(space: &AddressSpace) -> Vec<TableSlot> {
    (0..space.table_count())
        .map(|i| {
            let (frame, level, table) = space.table(i);
            TableSlot { frame, level, table: *table }
        })
        .collect()
}

fn allocator_after(space: &AddressSpace) -> FrameAllocator {
    let map = map_with(&[(MemoryType::Free, 0x10_0000, 16)]);
    FrameAllocator::new(map, space.mapping_offset(), space.next_frame_index())
}

#[test]
fn existing_tables_are_adopted_and_mapped_on() {
    let mut built = space_with_frames(16);
    assert_eq!(built.map_address(VirtAddr::new(0x4000_1000), 0x5000), Ok(()));
    let mut adopted = AddressSpace::adopt(allocator_after(&built), built.root(), tables_of(&built)).unwrap();
    assert_eq!(adopted.translate(VirtAddr::new(0x4000_1000)), Some(0x5000));
    assert_eq!(adopted.map_address(VirtAddr::new(0x4000_2000), 0x6000), Ok(()));
    assert_eq!(adopted.next_frame_index(), built.next_frame_index());
    assert_eq!(adopted.map_address(VirtAddr::new(0x8000_0000_0000), 0x7000), Ok(()));
    assert_eq!(adopted.next_frame_index(), built.next_frame_index() + 3);
    assert_eq!(adopted.translate(VirtAddr::new(0x8000_0000_0000)), Some(0x7000));
}

#[test]
fn tables_that_form_no_hierarchy_are_refused() {
    let mut built = space_with_frames(16);
    assert_eq!(built.map_address(VirtAddr::new(0x4000_1000), 0x5000), Ok(()));
    let refused = |root, tables| {
        matches!(AddressSpace::adopt(allocator_after(&built), root, tables), Err(MapError::InvalidTables))
    };
    // the root is no table
    assert!(refused(0x9000, tables_of(&built)));
    // a table is missing
    let mut missing = tables_of(&built);
    missing.pop();
    assert!(refused(built.root(), missing));
    // a table is there twice
    let mut twice = tables_of(&built);
    twice.push(TableSlot { frame: built.root(), level: 4, table: PageTable::new() });
    assert!(refused(built.root(), twice));
    // a level is off
    let mut level = tables_of(&built);
    level[3].level = 2;
    assert!(refused(built.root(), level));
    // two entries point to one table
    let mut shared = tables_of(&built);
    let entry = shared[0].table.entry(0);
    shared[0].table.set_entry(1, entry);
    assert!(refused(built.root(), shared));
    // a table sits in a frame that the allocator has yet to hand out
    let early = FrameAllocator::new(map_with(&[(MemoryType::Free, 0x10_0000, 16)]), 0, 2);
    assert!(matches!(
        AddressSpace::adopt(early, built.root(), tables_of(&built)),
        Err(MapError::InvalidTables)
    ));
    let overlapping = map_with(&[(MemoryType::Free, 0x1000, 4), (MemoryType::Free, 0x2000, 1)]);
    assert!(matches!(
        AddressSpace::adopt(FrameAllocator::new(overlapping, 0, 0), built.root(), tables_of(&built)),
        Err(MapError::InvalidMemoryMap)
    ));
}

#[test]
fn allocator_knows_what_it_has_yet_to_hand_out() {
    let map = map_with(&[
        (MemoryType::Free, 0x1000, 2),
        (MemoryType::Reserved, 0x3000, 1),
        (MemoryType::Free, 0x8000, 2),
    ]);
    let allocator = FrameAllocator::new(map, 0, 1);
    assert!(!allocator.will_allocate(0x1000));
    assert!(allocator.will_allocate(0x2000));
    assert!(!allocator.will_allocate(0x3000));
    assert!(allocator.will_allocate(0x9000));
    assert!(!allocator.will_allocate(0x9001));
    assert!(!allocator.will_allocate(0xa000));
}
