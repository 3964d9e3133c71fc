use rust_os::kernel::addr::VirtAddr;
use rust_os::kernel::gdt::{
    init, Descriptor, GlobalDescriptorTable, PrivilegeLevel, SegmentSelector, TaskStateSegment,
    DOUBLE_FAULT_STACK_SIZE, KERNEL_CODE, KERNEL_DATA,
};
use rust_os::kernel::idt::{
    Entry, EntryOptions, HandlerAddress, HandlerFuncType, InterruptDescriptorTable,
    PageFaultErrorCode, CAUSED_BY_WRITE, PROTECTION_VIOLATION, USER_MODE,
};
use rust_os::kernel::interrupts::{init_idt, timer_tick, Handlers, InterruptIndex, PIC_2_OFFSET};
use rust_os::kernel::preinit;
use rust_os::shared::addr::AddrError;

#[test]
fn kernel_address_constructors_agree_with_the_checked_one() {
    assert_eq!(VirtAddr::new_truncate(0xf000_0000_0000_0023).0, 0x23);
    assert_eq!(VirtAddr::new(0x0000_8000_0000_0000).0, 0xffff_8000_0000_0000);
    assert_eq!(VirtAddr::try_new(0x0222), Ok(VirtAddr(0x0222)));
    assert_eq!(VirtAddr::try_new(0xffff_800f_0000_0023), Ok(VirtAddr(0xffff_800f_0000_0023)));
    assert_eq!(VirtAddr::try_new(0x1020_0000_0000_0002), Err(AddrError::BadVirtualAddress));
    assert_eq!(VirtAddr::zero().0, 0);
    assert_eq!(VirtAddr::from_ptr(0x4000).0, 0x4000);
}

#[test]
fn kernel_segments_have_the_bits_the_processor_wants() {
    assert_eq!(Descriptor::kernel_code_segment(), Descriptor::UserSegment(0x00AF_9B00_0000_FFFF));
    assert_eq!(Descriptor::kernel_data_segment(), Descriptor::UserSegment(0x00CF_9300_0000_FFFF));
    assert_eq!(KERNEL_CODE, 0x00AF_9B00_0000_FFFF);
    assert_eq!(KERNEL_DATA, 0x00CF_9300_0000_FFFF);
    assert_eq!(Descriptor::kernel_code_segment().dpl(), PrivilegeLevel::Ring0);
    assert_eq!(Descriptor::UserSegment(3 << 45).dpl(), PrivilegeLevel::Ring3);
    assert_eq!(PrivilegeLevel::from_u16(2), PrivilegeLevel::Ring2);
    assert_eq!(SegmentSelector::new(2, PrivilegeLevel::Ring3).0, 0x13);
}

#[test]
fn descriptor_table_fills_from_the_second_entry() {
    let mut gdt = GlobalDescriptorTable::new();
    assert_eq!(gdt.len(), 1);
    assert_eq!(gdt.add_entry(Descriptor::kernel_code_segment()).0, 8);
    assert_eq!(gdt.add_entry(Descriptor::SystemSegment(0x11, 0x22)).0, 16);
    assert_eq!(gdt.add_entry(Descriptor::kernel_data_segment()).0, 32);
    assert_eq!(gdt.len(), 5);
    assert_eq!(gdt.entry(0), 0);
    assert_eq!(gdt.entry(2), 0x11);
    assert_eq!(gdt.entry(3), 0x22);
    let pointer = gdt.pointer(0x0000_8000_0000_1000);
    assert_eq!(pointer.limit, 39);
    assert_eq!(pointer.base.0, 0xffff_8000_0000_1000);
}

#[test]
fn task_state_segment_descriptor_is_present_and_available() {
    let Descriptor::SystemSegment(low, high) = Descriptor::tss_segment(0x12_3456) else {
        panic!("a task state segment has a system descriptor");
    };
    assert_eq!(low, (1 << 47) | (0b1001 << 40) | (0x12_3456 << 16) | 103);
    assert_eq!(high, 0);
    let tables = init(0x12_3456);
    assert_eq!(tables.code_selector.0, 8);
    assert_eq!(tables.tss_selector.0, 16);
    assert_eq!(tables.data_selector.0, 32);
    assert_eq!(tables.gdt.len(), 5);
}

#[test]
fn task_state_segment_above_16_mib_keeps_its_type() {
    let Descriptor::SystemSegment(low, high) = Descriptor::tss_segment(0x0200_0000) else {
        panic!("a task state segment has a system descriptor");
    };
    assert_eq!(low, 0x0200_8900_0000_0067);
    assert_eq!(high, 0);
    let Descriptor::SystemSegment(low, high) = Descriptor::tss_segment(0xffff_8000_12ab_cdef) else {
        panic!("a task state segment has a system descriptor");
    };
    assert_eq!(low, 0x1200_89ab_cdef_0067);
    assert_eq!(high, 0xffff_8000);
    assert_eq!((low >> 40) & 0xF, 0b1001);
}

#[test]
fn a_new_descriptor_table_is_all_zero() {
    let mut gdt = GlobalDescriptorTable::new();
    assert_eq!(gdt.len(), 1);
    for index in 0..8 {
        assert_eq!(gdt.slot(index), 0);
    }
    assert_eq!(gdt.add_entry(Descriptor::kernel_code_segment()).0, 8);
    assert_eq!(gdt.slot(1), 0x00AF_9B00_0000_FFFF);
    for index in 2..8 {
        assert_eq!(gdt.slot(index), 0);
    }
}

#[test]
fn double_fault_stack_ends_where_its_bytes_end() {
    let tss = TaskStateSegment::new();
    assert_eq!(tss.iomap_base, 104);
    assert_eq!(tss.interrupt_stack_table[0].0, 0);
    let tss = TaskStateSegment::with_double_fault_stack(0x20_0000);
    assert_eq!(tss.interrupt_stack_table[0].0, 0x20_0000 + DOUBLE_FAULT_STACK_SIZE);
    assert_eq!(tss.interrupt_stack_table[1].0, 0);
    assert_eq!(tss.privilege_stack_table[0].0, 0);
}

#[test]
fn entry_keeps_the_address_of_its_handler() {
    let mut entry = Entry::missing();
    assert_eq!(entry.options(), EntryOptions(0b1110_0000_0000));
    assert_eq!(entry.handler_addr().0, 0);
    entry.set_handler_addr(VirtAddr(0xffff_8000_1234_5678), 8);
    assert_eq!(entry.handler_addr().0, 0xffff_8000_1234_5678);
    assert_eq!(entry.gdt_selector(), 8);
    assert_eq!(entry.options().0, 0b1000_1110_0000_0000);
    entry.set_stack_index(0);
    assert_eq!(entry.options().0, 0b1000_1110_0000_0001);
    assert_eq!(HandlerAddress(0x0000_8000_0000_0000).to_virt_addr().0, 0xffff_8000_0000_0000);
}

#[test]
fn interrupt_table_routes_what_the_kernel_handles() {
    assert_eq!(InterruptIndex::Timer.as_u8(), 32);
    assert_eq!(InterruptIndex::Keyboard.as_u8(), 33);
    assert_eq!(InterruptIndex::Spurious.as_usize(), 39);
    assert_eq!(PIC_2_OFFSET, 40);
    let handlers = Handlers {
        breakpoint: HandlerAddress(0x1000),
        double_fault: HandlerAddress(0x2000),
        general_protection_fault: HandlerAddress(0x3000),
        page_fault: HandlerAddress(0x4000),
        timer: HandlerAddress(0x5000),
        keyboard: HandlerAddress(0x6000),
        spurious: HandlerAddress(0x7000),
    };
    let idt = init_idt(&handlers, 8);
    assert_eq!(idt.breakpoint.handler_addr().0, 0x1000);
    assert_eq!(idt.double_fault.handler_addr().0, 0x2000);
    assert_eq!(idt.double_fault.options().0, 0b1000_1110_0000_0001);
    assert_eq!(idt.general_protection_fault.handler_addr().0, 0x3000);
    assert_eq!(idt.page_fault.handler_addr().0, 0x4000);
    assert_eq!(idt.interrupt(32).handler_addr().0, 0x5000);
    assert_eq!(idt.interrupt(33).handler_addr().0, 0x6000);
    assert_eq!(idt.interrupt(39).handler_addr().0, 0x7000);
    assert_eq!(idt.interrupt(34), Entry::missing());
    assert_eq!(idt.divide_error, Entry::missing());
    assert_eq!(idt.pointer(0x5000).limit, 4095);
    let fresh = InterruptDescriptorTable::new();
    assert_eq!(fresh.page_fault, Entry::missing());
    let prepared = preinit(0x12_3456, &handlers);
    assert_eq!(prepared.gdt.code_selector.0, 8);
    assert_eq!(prepared.idt.interrupt(33).gdt_selector(), 8);
    assert_eq!(prepared.pic_writes[0].port, 0x21);
    assert_eq!(prepared.pic_writes[1].value, 0xff);
}

#[test]
fn page_fault_code_keeps_known_bits() {
    let code = PageFaultErrorCode::from_bits_truncate(0x1007);
    assert_eq!(code.0, 7);
    assert!(code.contains(PROTECTION_VIOLATION | CAUSED_BY_WRITE));
    assert!(code.contains(USER_MODE));
    assert!(!PageFaultErrorCode::from_bits_truncate(1).contains(CAUSED_BY_WRITE));
}

#[test]
fn timer_handler_logs_once_a_second() {
    let mut counter = 0;
    assert_eq!(timer_tick(&mut counter), Some(0));
    assert_eq!(timer_tick(&mut counter), None);
    counter = 300;
    assert_eq!(timer_tick(&mut counter), Some(3));
    assert_eq!(counter, 301);
}

#[test]
fn entries_are_laid_out_as_the_processor_reads_them() {
    let mut entry = Entry::missing();
    assert_eq!(entry.encode(), (0x0000_0E00_0000_0000, 0));
    entry.set_handler_addr(VirtAddr(0xffff_8000_1234_5678), 8);
    assert_eq!(entry.encode(), (0x1234_8E00_0008_5678, 0xffff_8000));
    let handlers = Handlers {
        breakpoint: HandlerAddress(0x1000),
        double_fault: HandlerAddress(0x2000),
        general_protection_fault: HandlerAddress(0x3000),
        page_fault: HandlerAddress(0x4000),
        timer: HandlerAddress(0x5000),
        keyboard: HandlerAddress(0x6000),
        spurious: HandlerAddress(0x7000),
    };
    let idt = init_idt(&handlers, 8);
    assert_eq!(idt.entry(3), idt.breakpoint);
    assert_eq!(idt.entry(8), idt.double_fault);
    assert_eq!(idt.entry(14), idt.page_fault);
    assert_eq!(idt.entry(24), Entry::missing());
    assert_eq!(idt.entry(33), idt.interrupt(33));
    assert_eq!(idt.entry(255), Entry::missing());
}

#[test]
fn option_setters_can_follow_one_another() {
    let mut options = EntryOptions::minimal();
    options.set_present().set_stack_index(2);
    assert_eq!(options.0, 0b1110_0000_0000 | 0x8000 | 3);
}
