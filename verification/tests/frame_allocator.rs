use rust_os::shared::frame_allocator::{FrameAllocator, MemoryMap, MemoryRegion, MemoryType};

fn sample_map() -> MemoryMap {
    let mut map = MemoryMap::new();
    assert!(map.push(MemoryRegion { ty: MemoryType::Reserved, addr: 0, page_count: 1 }));
    assert!(map.push(MemoryRegion { ty: MemoryType::Free, addr: 0x1000, page_count: 2 }));
    assert!(map.push(MemoryRegion { ty: MemoryType::InUse, addr: 0x3000, page_count: 5 }));
    assert!(map.push(MemoryRegion { ty: MemoryType::Free, addr: 0x8000, page_count: 3 }));
    map
}

#[test]
fn frames_come_in_map_order_and_then_none() {
    let mut allocator = FrameAllocator::new(sample_map(), 0, 0);
    let mut got = Vec::new();
    while let Some(frame) = allocator.allocate_frame() {
        got.push(frame);
    }
    assert_eq!(got, vec![0x1000, 0x2000, 0x8000, 0x9000, 0xa000]);
    assert_eq!(allocator.next, 6);
    assert_eq!(allocator.allocate_frame(), None);
}

#[test]
fn successive_frames_differ() {
    let mut allocator = FrameAllocator::new(sample_map(), 0, 0);
    let mut previous = allocator.allocate_frame().unwrap();
    while let Some(frame) = allocator.allocate_frame() {
        assert_ne!(frame, previous);
        previous = frame;
    }
}

#[test]
fn allocator_resumes_at_the_given_cursor() {
    let mut allocator = FrameAllocator::new(sample_map(), 0x180_0000_0000, 3);
    assert_eq!(allocator.mapping_offset(), 0x180_0000_0000);
    assert_eq!(allocator.frame_at(0), Some(0x1000));
    assert_eq!(allocator.allocate_frame(), Some(0x9000));
    assert_eq!(allocator.next_frame_index(), 4);
}

#[test]
fn map_refuses_a_region_past_the_address_space() {
    let mut map = MemoryMap::new();
    assert!(!map.push(MemoryRegion { ty: MemoryType::Free, addr: u64::MAX - 4095, page_count: 2 }));
    assert_eq!(map.len(), 0);
    assert!(map.push(MemoryRegion { ty: MemoryType::Free, addr: 0x1000, page_count: 2 }));
    assert_eq!(map.len(), 1);
    assert_eq!(map.region(0).addr, 0x1000);
    assert!(map.is_valid());
}

#[test]
fn map_holds_at_most_256_regions() {
    let mut map = MemoryMap::new();
    for i in 0..256u64 {
        assert!(map.push(MemoryRegion { ty: MemoryType::Free, addr: i * 0x1000, page_count: 1 }));
    }
    assert!(!map.push(MemoryRegion { ty: MemoryType::Free, addr: 0x100_0000, page_count: 1 }));
    assert!(map.is_valid());
}
