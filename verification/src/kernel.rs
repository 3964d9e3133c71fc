//! The kernel proper: descriptor tables, interrupt controllers, timing, ACPI
//! and disk formats, and the cooperative tasks.

use vstd::prelude::*;

pub mod addr;
pub mod allocator;
pub mod apic;
pub mod chrono;
pub mod gdt;
pub mod gpt;
pub mod ide;
pub mod idt;
pub mod interrupts;
pub mod memory;
pub mod pci;
pub mod pic;
pub mod port;
pub mod serial;
pub mod shell;
pub mod task;
pub mod xsdt;

verus! {

/// What the kernel sets up before it turns to the ACPI tables: the
/// descriptor table with its selectors, the interrupt table, and the writes
/// that silence the legacy interrupt controllers.
pub struct Preinit {
    pub gdt: gdt::GdtAndSelectors,
    pub idt: idt::InterruptDescriptorTable,
    pub pic_writes: [port::PortWrite; 2],
}

/// Builds the descriptor table for the task state segment at `tss`, the
/// interrupt table for `handlers` in the code segment of that descriptor
/// table, and the writes that mask every interrupt at the legacy
/// controllers.
pub fn preinit(tss: u64, handlers: &interrupts::Handlers) -> (r: Preinit)
    ensures
        r.gdt.gdt.wf(),
        r.gdt.gdt@ == seq![
            0u64,
            gdt::KERNEL_CODE,
            gdt::tss_descriptor_low(tss),
            gdt::tss_descriptor_high(tss),
            gdt::KERNEL_DATA,
        ],
        r.gdt.code_selector.0 == (1u16 << 3) | 0,
        r.gdt.data_selector.0 == (4u16 << 3) | 0,
        interrupts::routes(r.idt.breakpoint, handlers.breakpoint, r.gdt.code_selector.0),
        interrupts::routes(
            r.idt.general_protection_fault,
            handlers.general_protection_fault,
            r.gdt.code_selector.0,
        ),
        interrupts::routes(r.idt.page_fault, handlers.page_fault, r.gdt.code_selector.0),
        r.idt.double_fault.pointer() == crate::shared::addr::sign_extend(handlers.double_fault.0),
        r.idt.double_fault.selector() == r.gdt.code_selector.0,
        r.idt.double_fault.flags() == idt::MINIMAL_OPTIONS | idt::PRESENT_BIT | (
        crate::shared::bits::bit_field((gdt::DOUBLE_FAULT_IST_INDEX + 1) as u64, 0, 3) as u16),
        interrupts::routes(r.idt.interrupts@[0], handlers.timer, r.gdt.code_selector.0),
        interrupts::routes(r.idt.interrupts@[1], handlers.keyboard, r.gdt.code_selector.0),
        interrupts::routes(r.idt.interrupts@[7], handlers.spurious, r.gdt.code_selector.0),
        forall|i: int|
            0 <= i < 224 && i != 0 && i != 1 && i != 7 ==> idt::InterruptDescriptorTable::is_missing(
                #[trigger] r.idt.interrupts@[i],
            ),
        r.pic_writes@[0] == (port::PortWrite { port: 0x21, value: 0xff }),
        r.pic_writes@[1] == (port::PortWrite { port: 0xA1, value: 0xff }),
{
    let gdt = gdt::init(tss);
    let idt = interrupts::init_idt(handlers, gdt.code_selector.0);
    Preinit { gdt, idt, pic_writes: apic::disable_pic() }
}

} // verus!
