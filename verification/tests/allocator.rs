use rust_os::shared::allocator::{
    align_up, block_size, list_index, FixedSizeBlockAllocator, Layout, LinkedListHeap,
};

const HEAP_START: usize = 0x7777_7777_0000;
const HEAP_SIZE: usize = 100 * 1024;

fn heap() -> FixedSizeBlockAllocator {
    let mut heap = FixedSizeBlockAllocator::new();
    heap.init(HEAP_START, HEAP_SIZE);
    heap
}

fn layout(size: usize, align: usize) -> Layout {
    Layout::from_size_align(size, align).unwrap()
}

#[test]
fn block_sizes_double_from_8_to_2048() {
    let sizes: Vec<usize> = (0..9).map(block_size).collect();
    assert_eq!(sizes, vec![8, 16, 32, 64, 128, 256, 512, 1024, 2048]);
}

#[test]
fn layouts_go_to_the_smallest_list_that_fits() {
    assert_eq!(list_index(&layout(1, 1)), Some(0));
    assert_eq!(list_index(&layout(8, 8)), Some(0));
    assert_eq!(list_index(&layout(9, 1)), Some(1));
    assert_eq!(list_index(&layout(4, 64)), Some(3));
    assert_eq!(list_index(&layout(2048, 8)), Some(8));
    assert_eq!(list_index(&layout(2049, 8)), None);
    assert_eq!(list_index(&layout(8, 4096)), None);
    assert!(Layout::from_size_align(8, 3).is_none());
    assert!(Layout::from_size_align(8, 0).is_none());
}

#[test]
fn align_up_rounds_to_the_next_multiple() {
    assert_eq!(align_up(0x1001, 0x1000), 0x2000);
    assert_eq!(align_up(0x1000, 0x1000), 0x1000);
    assert_eq!(align_up(7, 1), 7);
}

#[test]
fn simple_allocation() {
    let mut heap = heap();
    let first = heap.allocate(layout(4, 4)).unwrap();
    let second = heap.allocate(layout(4, 4)).unwrap();
    assert_eq!(first, HEAP_START);
    assert_eq!(second, HEAP_START + 8);
    assert_eq!(heap.free(), HEAP_SIZE - 16);
}

#[test]
fn allocation_and_deallocation_conserve_the_free_bytes() {
    let mut heap = heap();
    for &(size, align) in &[(1, 1), (8, 8), (24, 8), (100, 4), (2048, 16), (3000, 8), (5000, 4096)] {
        let before = heap.free();
        let l = layout(size, align);
        let ptr = heap.allocate(l).unwrap();
        assert_eq!(ptr % align, 0);
        assert!(ptr >= HEAP_START && ptr + size <= HEAP_START + HEAP_SIZE);
        assert!(heap.free() < before);
        heap.deallocate(ptr, l);
        assert_eq!(heap.free(), before);
    }
}

#[test]
fn a_freed_block_is_the_next_of_its_size() {
    let mut heap = heap();
    let a = heap.allocate(layout(32, 8)).unwrap();
    let b = heap.allocate(layout(32, 8)).unwrap();
    assert_ne!(a, b);
    heap.deallocate(a, layout(32, 8));
    assert_eq!(heap.allocate(layout(20, 4)), Some(a));
}

#[test]
fn many_boxes() {
    let mut heap = heap();
    for _ in 0..HEAP_SIZE {
        let l = layout(8, 8);
        let ptr = heap.allocate(l).unwrap();
        heap.deallocate(ptr, l);
    }
    assert_eq!(heap.free(), HEAP_SIZE);
}

#[test]
fn many_boxes_long_lived() {
    let mut heap = heap();
    let long_lived = heap.allocate(layout(8, 8)).unwrap();
    for _ in 0..HEAP_SIZE {
        let l = layout(8, 8);
        let ptr = heap.allocate(l).unwrap();
        assert_ne!(ptr, long_lived);
        heap.deallocate(ptr, l);
    }
    assert_eq!(heap.free(), HEAP_SIZE - 8);
}

#[test]
fn large_vec() {
    let mut heap = heap();
    let mut capacity = 4;
    let mut block = heap.allocate(layout(capacity * 8, 8)).unwrap();
    while capacity < 1024 {
        let grown = heap.allocate(layout(capacity * 16, 8)).unwrap();
        heap.deallocate(block, layout(capacity * 8, 8));
        block = grown;
        capacity *= 2;
    }
    assert_eq!(heap.free(), HEAP_SIZE - 1024 * 8);
}

#[test]
fn exhausted_heap_refuses_and_stays_as_it_is() {
    let mut heap = FixedSizeBlockAllocator::new();
    heap.init(0x1000, 64);
    assert_eq!(heap.allocate(layout(64, 64)), Some(0x1000));
    assert_eq!(heap.free(), 0);
    assert_eq!(heap.allocate(layout(8, 8)), None);
    assert_eq!(heap.free(), 0);
}

#[test]
fn first_fit_cuts_from_the_first_region_that_fits() {
    let mut heap = LinkedListHeap::new();
    heap.deallocate(0x1004, 12);
    heap.deallocate(0x2000, 0x100);
    assert_eq!(heap.allocate(16, 16), Some(0x2000));
    assert_eq!(heap.allocate(8, 8), Some(0x1008));
    assert_eq!(heap.regions.len(), 2);
    assert_eq!(heap.allocate(0x1000, 8), None);
}

#[test]
fn only_blocks_on_their_boundary_can_come_back() {
    assert!(FixedSizeBlockAllocator::can_deallocate(0x1000, &layout(24, 8)));
    assert!(!FixedSizeBlockAllocator::can_deallocate(0x1008, &layout(24, 8)));
    assert!(FixedSizeBlockAllocator::can_deallocate(0x1001, &layout(5000, 8)));
    assert!(!FixedSizeBlockAllocator::can_deallocate(usize::MAX - 10, &layout(5000, 8)));
}
