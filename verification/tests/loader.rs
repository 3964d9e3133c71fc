use rust_os::loader::{
    can_convert, convert_memory_type, create_stack, find_rsdp, init_allocator,
    is_known_memory_type, last_frame_addr, map_all_memory, map_bootinfo, map_framebuffer,
    map_identity_page, map_kernel, map_run, setup_mappings, ConfigEntry, ConfigKind, LoadError,
    MemoryDescriptor, ProgramHeader, SegmentKind,
    UEFI_ACPI_RECLAIM, UEFI_CONVENTIONAL, UEFI_LOADER_DATA, UEFI_MMIO, UEFI_PAL_CODE, UEFI_RESERVED,
    UEFI_RUNTIME_SERVICES_CODE,
};
use rust_os::shared::addr::VirtAddr;
use rust_os::shared::frame_allocator::{FrameAllocator, MemoryMap, MemoryRegion, MemoryType};
use rust_os::shared::logger::{FrameBufferInfo, PixelFormat};
use rust_os::shared::page_table::{AddressSpace, MapError};
use rust_os::shared::VIRT_MAPPING_OFFSET;

fn space_with_frames(frames: usize) -> AddressSpace {
    let mut map = MemoryMap::new();
    assert!(map.push(MemoryRegion { ty: MemoryType::Free, addr: 0x100_0000, page_count: frames }));
    AddressSpace::new(FrameAllocator::new(map, 0, 0)).unwrap()
}

#[test]
fn memory_types_convert_as_the_loader_maps_them() {
    assert_eq!(convert_memory_type(UEFI_RESERVED), MemoryType::Reserved);
    assert_eq!(convert_memory_type(UEFI_MMIO), MemoryType::Reserved);
    assert_eq!(convert_memory_type(UEFI_CONVENTIONAL), MemoryType::Free);
    assert_eq!(convert_memory_type(UEFI_LOADER_DATA), MemoryType::Free);
    assert_eq!(convert_memory_type(UEFI_RUNTIME_SERVICES_CODE), MemoryType::Acpi1_3);
    assert_eq!(convert_memory_type(UEFI_ACPI_RECLAIM), MemoryType::AcpiReclaim);
    assert_eq!(convert_memory_type(UEFI_PAL_CODE), MemoryType::Acpi1_4);
    assert!(is_known_memory_type(14));
    assert!(!is_known_memory_type(15));
}

#[test]
fn firmware_map_reserves_frame_zero_and_advertises_the_free_frames() {
    let descriptors = vec![
        MemoryDescriptor { ty: UEFI_CONVENTIONAL, phys_start: 0x0, page_count: 1 },
        MemoryDescriptor { ty: UEFI_CONVENTIONAL, phys_start: 0x1000, page_count: 10 },
        MemoryDescriptor { ty: UEFI_RESERVED, phys_start: 0xB000, page_count: 2 },
    ];
    assert!(can_convert(&descriptors));
    let (mut allocator, map) = init_allocator(&descriptors);
    assert_eq!(map.next_free_entry_idx, 3);
    assert_eq!(map.region(0), MemoryRegion { ty: MemoryType::Reserved, addr: 0, page_count: 1 });
    assert_eq!(map.region(1), MemoryRegion { ty: MemoryType::Free, addr: 0x1000, page_count: 10 });
    assert_eq!(map.region(2), MemoryRegion { ty: MemoryType::Reserved, addr: 0xB000, page_count: 2 });
    let mut frames = Vec::new();
    while let Some(frame) = allocator.allocate_frame() {
        frames.push(frame);
    }
    let expected: Vec<u64> = (0..10).map(|i| 0x1000 + i * 0x1000).collect();
    assert_eq!(frames, expected);
    assert_eq!(last_frame_addr(&descriptors), Some(0xB000 + 0x1000));
}

#[test]
fn unknown_memory_type_cannot_be_converted() {
    let descriptors = vec![MemoryDescriptor { ty: 99, phys_start: 0x1000, page_count: 1 }];
    assert!(!can_convert(&descriptors));
    let at_zero = vec![MemoryDescriptor { ty: 99, phys_start: 0, page_count: 1 }];
    assert!(can_convert(&at_zero));
    assert_eq!(last_frame_addr(&Vec::new()), None);
}

#[test]
fn kernel_with_a_partial_last_page_gets_a_fresh_frame_for_it() {
    let mut space = space_with_frames(64);
    let kernel = 0x40_0000;
    let headers = vec![ProgramHeader {
        kind: SegmentKind::Load,
        offset: 0,
        virtual_addr: 0x1_0000_0000,
        file_size: 0x1003,
        mem_size: 0x2000,
    }];
    let before = space.next_frame_index();
    let image = map_kernel(&headers, kernel, &mut space).unwrap();
    assert_eq!(image.mapped.len(), 2);
    assert_eq!(image.mapped[0].page, VirtAddr(0x1_0000_0000));
    assert_eq!(image.mapped[0].frame, 0x40_0000);
    assert_eq!(image.mapped[0].target, 0x40_0000);
    assert_eq!(image.mapped[1].page, VirtAddr(0x1_0000_1000));
    assert_eq!(image.mapped[1].frame, 0x40_1000);
    assert_eq!(image.fills.len(), 1);
    let fill = image.fills[0];
    assert_eq!(fill.source, 0x40_1000);
    assert_eq!(fill.copied, 3);
    assert_eq!(image.mapped[1].target, fill.frame);
    assert_ne!(fill.frame, 0x40_0000);
    assert_ne!(fill.frame, 0x40_1000);
    assert_eq!(space.translate(VirtAddr(0x1_0000_0000)), Some(0x40_0000));
    assert_eq!(space.translate(VirtAddr(0x1_0000_1000)), Some(fill.frame));
    assert_eq!(space.translate(VirtAddr(0x1_0000_2000)), None);
    // three tables for the first page of the image, and the fresh frame
    assert_eq!(space.next_frame_index(), before + 4);
}

#[test]
fn kernel_with_whole_pages_of_zeros_gets_zeroed_frames() {
    let mut space = space_with_frames(64);
    let headers = vec![ProgramHeader {
        kind: SegmentKind::Load,
        offset: 0x1000,
        virtual_addr: 0x20_0000,
        file_size: 0x1000,
        mem_size: 0x3001,
    }];
    let image = map_kernel(&headers, 0x80_0000, &mut space).unwrap();
    assert_eq!(image.mapped.len(), 4);
    assert_eq!(image.fills.len(), 3);
    for fill in &image.fills {
        assert_eq!(fill.copied, 0);
    }
    assert_eq!(space.translate(VirtAddr(0x20_0000)), Some(0x80_1000));
    assert_eq!(space.translate(VirtAddr(0x20_1000)), Some(image.fills[0].frame));
    assert_eq!(space.translate(VirtAddr(0x20_2000)), Some(image.fills[1].frame));
    assert_eq!(space.translate(VirtAddr(0x20_3000)), Some(image.fills[2].frame));
    assert_eq!(space.translate(VirtAddr(0x20_4000)), None);
}

#[test]
fn pages_of_the_file_and_pages_of_zeros_are_told_apart() {
    let mut space = space_with_frames(64);
    let headers = vec![ProgramHeader {
        kind: SegmentKind::Load,
        offset: 0x1000,
        virtual_addr: 0x20_0000,
        file_size: 0x1004,
        mem_size: 0x3001,
    }];
    let image = map_kernel(&headers, 0x80_0000, &mut space).unwrap();
    // two pages of the file, the second shared with zeros, and two pages of zeros
    assert_eq!(image.mapped.len(), 4);
    assert_eq!(image.fills.len(), 3);
    assert!(!image.mapped[0].zeroed);
    assert!(!image.mapped[1].zeroed);
    assert!(image.mapped[2].zeroed);
    assert!(image.mapped[3].zeroed);
    assert_eq!(image.mapped[0].target, 0x80_1000);
    assert_eq!(image.mapped[1].frame, 0x80_2000);
    assert_eq!(image.mapped[1].target, image.fills[0].frame);
    assert_eq!(image.fills[0].source, 0x80_2000);
    assert_eq!(image.fills[0].copied, 4);
    assert_eq!(image.mapped[2].page, VirtAddr(0x20_2000));
    assert_eq!(image.mapped[2].target, image.fills[1].frame);
    assert_eq!(image.mapped[3].page, VirtAddr(0x20_3000));
    assert_eq!(image.mapped[3].target, image.fills[2].frame);
    assert_eq!(image.fills[1].copied, 0);
    assert_eq!(image.fills[2].copied, 0);
    let mut frames: Vec<u64> = image.fills.iter().map(|fill| fill.frame).collect();
    frames.sort();
    frames.dedup();
    assert_eq!(frames.len(), 3);
    assert_eq!(space.translate(VirtAddr(0x20_1000)), Some(image.fills[0].frame));
}

#[test]
fn a_later_segment_on_the_same_image_frame_keeps_the_image_frame() {
    let mut space = space_with_frames(64);
    let headers = vec![
        ProgramHeader {
            kind: SegmentKind::Load,
            offset: 0,
            virtual_addr: 0x20_0000,
            file_size: 0x10,
            mem_size: 0x20,
        },
        ProgramHeader {
            kind: SegmentKind::Load,
            offset: 0x100,
            virtual_addr: 0x30_0100,
            file_size: 0x10,
            mem_size: 0x10,
        },
    ];
    let image = map_kernel(&headers, 0x80_0000, &mut space).unwrap();
    assert_eq!(image.mapped.len(), 2);
    assert_eq!(image.fills.len(), 1);
    assert_eq!(image.mapped[0].target, image.fills[0].frame);
    assert_eq!(image.mapped[1].frame, 0x80_0000);
    assert_eq!(image.mapped[1].target, 0x80_0000);
    assert_eq!(space.translate(VirtAddr(0x30_0000)), Some(0x80_0000));
}

#[test]
fn kernel_mapping_names_what_stopped_it() {
    let tail = vec![ProgramHeader {
        kind: SegmentKind::Load,
        offset: 0,
        virtual_addr: 0x20_0000,
        file_size: 0x10,
        mem_size: 0x20,
    }];
    // the root table takes one frame, the three tables for the page the rest
    let mut space = space_with_frames(4);
    assert_eq!(map_kernel(&tail, 0x80_0000, &mut space).err(), Some(LoadError::OutOfMemory));
    assert_eq!(space.translate(VirtAddr(0x20_0000)), Some(0x80_0000));
    let mut space = space_with_frames(2);
    assert_eq!(
        map_kernel(&tail, 0x80_0000, &mut space).err(),
        Some(LoadError::Mapping(MapError::OutOfMemory))
    );
    let mut space = space_with_frames(64);
    assert_eq!(space.map_address(VirtAddr(0x20_0000), 0x5000), Ok(()));
    assert_eq!(
        map_kernel(&tail, 0x80_0000, &mut space).err(),
        Some(LoadError::Mapping(MapError::MappingExists))
    );
    let mut space = space_with_frames(64);
    assert_eq!(map_kernel(&tail, 0x80_0001, &mut space).err(), None);
    let far = vec![ProgramHeader {
        kind: SegmentKind::Load,
        offset: 0,
        virtual_addr: 0x20_0000,
        file_size: 0x10,
        mem_size: u64::MAX,
    }];
    let mut space = space_with_frames(64);
    assert_eq!(map_kernel(&far, 0x80_0000, &mut space).err(), Some(LoadError::AddressOverflow));
    assert_eq!(space.translate(VirtAddr(0x20_0000)), None);
    let beyond = vec![ProgramHeader {
        kind: SegmentKind::Load,
        offset: 0,
        virtual_addr: 0x20_0000,
        file_size: 0x10,
        mem_size: 0x10,
    }];
    let mut space = space_with_frames(64);
    assert_eq!(
        map_kernel(&beyond, 0x10_0000_0000_0000, &mut space).err(),
        Some(LoadError::BadFrame)
    );
    let tls = vec![ProgramHeader {
        kind: SegmentKind::Tls,
        offset: 0,
        virtual_addr: 0,
        file_size: 0,
        mem_size: 0,
    }];
    assert_eq!(map_kernel(&tls, 0x80_0000, &mut space).err(), Some(LoadError::UnsupportedTls));
}

#[test]
fn a_bad_entry_point_stops_the_setup_before_anything_is_mapped() {
    let mut space = space_with_frames(128);
    let framebuffer = FrameBufferInfo {
        addr: 0x8000_0000,
        size: 0x2000,
        width: 32,
        height: 16,
        pixel_format: PixelFormat::Bgr,
        stride: 32,
    };
    let before = space.next_frame_index();
    let r = setup_mappings(0x3000, &mut space, &Vec::new(), 0x1234_0000_0000_0000, 0x40_0000, &framebuffer, 0x12_3456);
    assert_eq!(r.err(), Some(LoadError::BadVirtualAddress));
    assert_eq!(space.next_frame_index(), before);
    assert_eq!(space.translate(VirtAddr(VIRT_MAPPING_OFFSET)), None);
}

#[test]
fn the_setup_names_the_step_that_stopped_it() {
    let framebuffer = FrameBufferInfo {
        addr: 0x8000_0000,
        size: 0x2000,
        width: 32,
        height: 16,
        pixel_format: PixelFormat::Bgr,
        stride: 32,
    };
    let headers = vec![ProgramHeader {
        kind: SegmentKind::Load,
        offset: 0,
        virtual_addr: 0xffff_8000_0000_0000,
        file_size: 0x800,
        mem_size: 0x800,
    }];
    let entry = 0xffff_8000_0000_0040;

    // no frames for the tables of the direct map
    let mut space = space_with_frames(2);
    let r = setup_mappings(0x3000, &mut space, &headers, entry, 0x40_0000, &framebuffer, 0x12_3456);
    assert_eq!(r.err(), Some(LoadError::Mapping(MapError::OutOfMemory)));
    assert_eq!(space.translate(VirtAddr(VIRT_MAPPING_OFFSET)), None);

    // a page of the kernel image is taken
    let mut space = space_with_frames(128);
    assert_eq!(space.map_address(VirtAddr(0xffff_8000_0000_0000), 0x9000), Ok(()));
    let r = setup_mappings(0x3000, &mut space, &headers, entry, 0x40_0000, &framebuffer, 0x12_3456);
    assert_eq!(r.err(), Some(LoadError::Mapping(MapError::MappingExists)));
    assert_eq!(space.translate(VirtAddr(VIRT_MAPPING_OFFSET + 0x2000)), Some(0x2000));
    assert_eq!(space.translate(VirtAddr(0x8000_0000 + VIRT_MAPPING_OFFSET)), None);

    // a page of the framebuffer is taken
    let mut space = space_with_frames(128);
    assert_eq!(space.map_address(VirtAddr(0x8000_1000 + VIRT_MAPPING_OFFSET), 0x9000), Ok(()));
    let r = setup_mappings(0x3000, &mut space, &headers, entry, 0x40_0000, &framebuffer, 0x12_3456);
    assert_eq!(r.err(), Some(LoadError::Mapping(MapError::MappingExists)));
    assert_eq!(space.translate(VirtAddr(0xffff_8000_0000_0000)), Some(0x40_0000));
    assert_eq!(space.translate(VirtAddr(0x8000_0000 + VIRT_MAPPING_OFFSET)), Some(0x8000_0000));
    assert_eq!(space.translate(VirtAddr(0x12_3000)), None);

    // the page of the switch routine is taken
    let mut space = space_with_frames(128);
    assert_eq!(space.map_address(VirtAddr(0x12_3000), 0x9000), Ok(()));
    let r = setup_mappings(0x3000, &mut space, &headers, entry, 0x40_0000, &framebuffer, 0x12_3456);
    assert_eq!(r.err(), Some(LoadError::Mapping(MapError::MappingExists)));
    assert_eq!(space.translate(VirtAddr(0x8000_1000 + VIRT_MAPPING_OFFSET)), Some(0x8000_1000));
    assert_eq!(space.translate(VirtAddr(0x12_3000)), Some(0x9000));
}

#[test]
fn kernel_segment_off_the_page_boundary_maps_every_page_it_touches() {
    let mut space = space_with_frames(64);
    let headers = vec![ProgramHeader {
        kind: SegmentKind::Load,
        offset: 0x234,
        virtual_addr: 0x30_0234,
        file_size: 0x1000,
        mem_size: 0x1000,
    }];
    let image = map_kernel(&headers, 0x80_0000, &mut space).unwrap();
    assert_eq!(image.mapped.len(), 2);
    assert!(image.fills.is_empty());
    assert_eq!(space.translate(VirtAddr(0x30_0000)), Some(0x80_0000));
    assert_eq!(space.translate(VirtAddr(0x30_1000)), Some(0x80_1000));
}

#[test]
fn thread_local_storage_is_refused() {
    let mut space = space_with_frames(64);
    let headers = vec![
        ProgramHeader { kind: SegmentKind::Other, offset: 0, virtual_addr: 0, file_size: 0, mem_size: 0 },
        ProgramHeader { kind: SegmentKind::Tls, offset: 0, virtual_addr: 0x1000, file_size: 8, mem_size: 8 },
    ];
    assert!(matches!(map_kernel(&headers, 0x80_0000, &mut space), Err(LoadError::UnsupportedTls)));
}

#[test]
fn kernel_errors_name_their_cause() {
    let mut space = space_with_frames(64);
    let bad_address = vec![ProgramHeader {
        kind: SegmentKind::Load,
        offset: 0,
        virtual_addr: 0x1020_0000_0000_0002,
        file_size: 8,
        mem_size: 8,
    }];
    assert!(matches!(
        map_kernel(&bad_address, 0x80_0000, &mut space),
        Err(LoadError::BadVirtualAddress)
    ));
    let overflow = vec![ProgramHeader {
        kind: SegmentKind::Load,
        offset: u64::MAX,
        virtual_addr: 0x1000,
        file_size: 8,
        mem_size: 8,
    }];
    assert!(matches!(map_kernel(&overflow, 0x80_0000, &mut space), Err(LoadError::AddressOverflow)));
    let twice = vec![
        ProgramHeader { kind: SegmentKind::Load, offset: 0, virtual_addr: 0x5000, file_size: 8, mem_size: 8 },
        ProgramHeader { kind: SegmentKind::Load, offset: 0x1000, virtual_addr: 0x5800, file_size: 8, mem_size: 8 },
    ];
    assert!(matches!(
        map_kernel(&twice, 0x80_0000, &mut space),
        Err(LoadError::Mapping(MapError::MappingExists))
    ));
    let mut small = space_with_frames(2);
    let one = vec![ProgramHeader {
        kind: SegmentKind::Load,
        offset: 0,
        virtual_addr: 0x5000,
        file_size: 8,
        mem_size: 8,
    }];
    assert!(matches!(
        map_kernel(&one, 0x80_0000, &mut small),
        Err(LoadError::Mapping(MapError::OutOfMemory))
    ));
}

#[test]
fn direct_map_shows_every_frame_at_the_offset() {
    let mut space = space_with_frames(64);
    assert_eq!(map_all_memory(0x5000, &mut space), Ok(()));
    for i in 0..5u64 {
        assert_eq!(space.translate(VirtAddr(VIRT_MAPPING_OFFSET + i * 0x1000)), Some(i * 0x1000));
    }
    assert_eq!(space.translate(VirtAddr(VIRT_MAPPING_OFFSET + 0x5000)), None);
}

#[test]
fn framebuffer_and_stack_are_mapped_page_by_page() {
    let mut space = space_with_frames(64);
    let framebuffer = FrameBufferInfo {
        addr: 0x8000_0000,
        size: 0x3800,
        width: 64,
        height: 56,
        pixel_format: PixelFormat::Rgb,
        stride: 64,
    };
    assert_eq!(map_framebuffer(&framebuffer, &mut space), Ok(()));
    assert_eq!(space.translate(VirtAddr(0x8000_0000 + VIRT_MAPPING_OFFSET)), Some(0x8000_0000));
    assert_eq!(space.translate(VirtAddr(0x8000_2000 + VIRT_MAPPING_OFFSET)), Some(0x8000_2000));
    assert_eq!(space.translate(VirtAddr(0x8000_3000 + VIRT_MAPPING_OFFSET)), None);
    assert_eq!(create_stack(0x70_0000, 20, &mut space), Ok(0x70_0000 + 19 * 4096));
    assert_eq!(space.translate(VirtAddr(0x70_0000)), Some(0x70_0000));
    assert_eq!(space.translate(VirtAddr(0x71_3000)), Some(0x71_3000));
    assert_eq!(space.translate(VirtAddr(0x71_4000)), None);
}

#[test]
fn run_stops_at_the_first_bad_page() {
    let mut space = space_with_frames(64);
    assert_eq!(map_run(&mut space, 0x1001, 0, 1, true), Err(LoadError::BadFrame));
    assert_eq!(
        map_run(&mut space, 0x0000_7fff_ffff_f000, 0x1000_0000_0000_0000, 2, true),
        Err(LoadError::BadVirtualAddress)
    );
    assert_eq!(map_run(&mut space, 0x1000, u64::MAX, 1, true), Err(LoadError::AddressOverflow));
    assert_eq!(map_run(&mut space, 0x1000, 0, 2, true), Ok(()));
    assert_eq!(
        map_run(&mut space, 0, 0, 3, true),
        Err(LoadError::Mapping(MapError::MappingExists))
    );
    assert_eq!(space.translate(VirtAddr(0)), Some(0));
}

#[test]
fn boot_information_is_identity_mapped_once() {
    let mut space = space_with_frames(64);
    assert_eq!(map_bootinfo(0x9_0010, 0x9_0040, &mut space), Ok(()));
    assert_eq!(space.translate(VirtAddr(0x9_0000)), Some(0x9_0000));
    assert_eq!(space.translate(VirtAddr(0x9_1000)), Some(0x9_1000));
    assert_eq!(space.translate(VirtAddr(0x9_2000)), Some(0x9_2000));
    assert_eq!(space.translate(VirtAddr(0x9_3000)), None);
    assert_eq!(map_identity_page(0x9_0123, &mut space), Ok(()));
    assert_eq!(
        map_identity_page(0x1020_0000_0000_0002, &mut space),
        Err(LoadError::BadVirtualAddress)
    );
}

#[test]
fn boot_information_stops_at_the_first_page_that_cannot_be_mapped() {
    let mut space = space_with_frames(64);
    assert_eq!(space.map_address(VirtAddr(0x9_1000), 0x5_0000), Ok(()));
    assert_eq!(
        map_bootinfo(0x9_0010, 0x9_0040, &mut space),
        Err(LoadError::Mapping(MapError::MappingExists))
    );
    assert_eq!(space.translate(VirtAddr(0x9_0000)), Some(0x9_0000));
    assert_eq!(space.translate(VirtAddr(0x9_1000)), Some(0x5_0000));
    assert_eq!(space.translate(VirtAddr(0x9_2000)), None);

    let mut space = space_with_frames(64);
    assert_eq!(
        map_bootinfo(0x1020_0000_0000_0002, 0x9_0040, &mut space),
        Err(LoadError::BadVirtualAddress)
    );
    assert_eq!(space.translate(VirtAddr(0x9_0000)), None);
    assert_eq!(
        map_bootinfo(0x9_0010, 0xffff_8000_0000_0040, &mut space),
        Err(LoadError::BadFrame)
    );
    assert_eq!(space.translate(VirtAddr(0x9_0000)), Some(0x9_0000));

    let mut small = space_with_frames(1);
    assert_eq!(
        map_bootinfo(0x9_0010, 0x9_0040, &mut small),
        Err(LoadError::Mapping(MapError::OutOfMemory))
    );
    assert_eq!(small.translate(VirtAddr(0x9_0000)), None);
}

#[test]
fn setup_maps_memory_kernel_framebuffer_and_switch_page() {
    let mut space = space_with_frames(128);
    let headers = vec![ProgramHeader {
        kind: SegmentKind::Load,
        offset: 0,
        virtual_addr: 0xffff_8000_0000_0000,
        file_size: 0x800,
        mem_size: 0x800,
    }];
    let framebuffer = FrameBufferInfo {
        addr: 0x8000_0000,
        size: 0x2000,
        width: 32,
        height: 16,
        pixel_format: PixelFormat::Bgr,
        stride: 32,
    };
    let (entry, image) =
        setup_mappings(0x3000, &mut space, &headers, 0xffff_8000_0000_0040, 0x40_0000, &framebuffer, 0x12_3456)
            .unwrap();
    assert_eq!(entry, VirtAddr(0xffff_8000_0000_0040));
    assert_eq!(image.mapped.len(), 1);
    assert_eq!(space.translate(VirtAddr(VIRT_MAPPING_OFFSET + 0x2000)), Some(0x2000));
    assert_eq!(space.translate(VirtAddr(0xffff_8000_0000_0000)), Some(0x40_0000));
    assert_eq!(space.translate(VirtAddr(0x8000_1000 + VIRT_MAPPING_OFFSET)), Some(0x8000_1000));
    assert_eq!(space.translate(VirtAddr(0x12_3000)), Some(0x12_3000));
}

#[test]
fn root_pointer_of_acpi_2_is_preferred() {
    let entry = |kind, address| ConfigEntry { kind, address };
    let both = vec![
        entry(ConfigKind::Other, 1),
        entry(ConfigKind::Acpi1, 2),
        entry(ConfigKind::Acpi2, 3),
        entry(ConfigKind::Acpi2, 4),
    ];
    assert_eq!(find_rsdp(&both), Some(3));
    assert_eq!(find_rsdp(&both[..2].to_vec()), Some(2));
    assert_eq!(find_rsdp(&both[..1].to_vec()), None);
    assert_eq!(find_rsdp(&Vec::new()), None);
}

#[test]
fn zero_pages_need_frames_of_their_own() {
    // the root table and the three tables of the first page leave one frame
    let mut space = space_with_frames(5);
    let headers = vec![ProgramHeader {
        kind: SegmentKind::Load,
        offset: 0,
        virtual_addr: 0x20_0000,
        file_size: 0x1000,
        mem_size: 0x3000,
    }];
    assert!(matches!(map_kernel(&headers, 0x80_0000, &mut space), Err(LoadError::OutOfMemory)));
    assert_eq!(space.translate(VirtAddr(0x20_0000)), Some(0x80_0000));
    let unaligned = vec![ProgramHeader {
        kind: SegmentKind::Load,
        offset: 0,
        virtual_addr: 0x30_0000,
        file_size: 8,
        mem_size: 8,
    }];
    assert!(matches!(
        map_kernel(&unaligned, 0x10_0000_0000_0000, &mut space_with_frames(16)),
        Err(LoadError::BadFrame)
    ));
}
