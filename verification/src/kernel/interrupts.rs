//! The interrupt vectors of the kernel and the table that routes them.

use vstd::prelude::*;
use crate::kernel::gdt::DOUBLE_FAULT_IST_INDEX;
use crate::kernel::idt::{
    Entry, HandlerAddress, InterruptDescriptorTable, MINIMAL_OPTIONS, PRESENT_BIT,
};
use crate::shared::addr::sign_extend;
use crate::shared::bits::bit_field;

verus! {

/// The first interrupt number of the first legacy controller.
pub const PIC_1_OFFSET: u8 = 32;

/// The first interrupt number of the second legacy controller.
pub const PIC_2_OFFSET: u8 = PIC_1_OFFSET + 8;

/// The interrupts that the kernel handles.
#[derive(Debug, Clone, Copy, PartialEq, Eq, Structural)]
pub enum InterruptIndex {
    /// The timer of the local APIC: vector 32.
    Timer,
    /// The keyboard, routed through the I/O APIC: vector 33.
    Keyboard,
    /// The spurious interrupt of the local APIC: vector 39.
    Spurious,
}

impl InterruptIndex {
    /// The vector of the interrupt.
    pub open spec fn vector(self) -> u8 {
        match self {
            InterruptIndex::Timer => 32,
            InterruptIndex::Keyboard => 33,
            InterruptIndex::Spurious => 39,
        }
    }

    /// The vector of the interrupt.
    pub fn as_u8(self) -> (vector: u8)
        ensures
            vector == self.vector(),
    {
        match self {
            InterruptIndex::Timer => PIC_1_OFFSET,
            InterruptIndex::Keyboard => PIC_1_OFFSET + 1,
            InterruptIndex::Spurious => 39,
        }
    }

    /// The vector of the interrupt, as an index.
    pub fn as_usize(self) -> (vector: usize)
        ensures
            vector == self.vector(),
    {
        self.as_u8() as usize
    }
}

/// The addresses of the kernel's handlers.
#[derive(Debug, Clone, Copy, PartialEq, Eq, Structural)]
pub struct Handlers {
    pub breakpoint: HandlerAddress,
    pub double_fault: HandlerAddress,
    pub general_protection_fault: HandlerAddress,
    pub page_fault: HandlerAddress,
    pub timer: HandlerAddress,
    pub keyboard: HandlerAddress,
    pub spurious: HandlerAddress,
}

/// The entry is present, runs `handler` in the code segment `code_selector`,
/// and has no option beyond the minimal ones.
pub open spec fn routes(entry: Entry, handler: HandlerAddress, code_selector: u16) -> bool {
    &&& entry.pointer() == sign_extend(handler.0)
    &&& entry.selector() == code_selector
    &&& entry.flags() == MINIMAL_OPTIONS | PRESENT_BIT
}

/// Builds the kernel's table: handlers for the breakpoint, the double fault
/// (on its own stack), the general protection fault, the page fault, the
/// timer, the keyboard and the spurious interrupt; every other entry is not
/// present.
pub fn init_idt(handlers: &Handlers, code_selector: u16) -> (idt: InterruptDescriptorTable)
    ensures
        routes(idt.breakpoint, handlers.breakpoint, code_selector),
        routes(idt.general_protection_fault, handlers.general_protection_fault, code_selector),
        routes(idt.page_fault, handlers.page_fault, code_selector),
        idt.double_fault.pointer() == sign_extend(handlers.double_fault.0),
        idt.double_fault.selector() == code_selector,
        idt.double_fault.flags() == MINIMAL_OPTIONS | PRESENT_BIT | (bit_field(
            (DOUBLE_FAULT_IST_INDEX + 1) as u64,
            0,
            3,
        ) as u16),
        routes(idt.interrupts@[0], handlers.timer, code_selector),
        routes(idt.interrupts@[1], handlers.keyboard, code_selector),
        routes(idt.interrupts@[7], handlers.spurious, code_selector),
        forall|i: int|
            0 <= i < 224 && i != 0 && i != 1 && i != 7 ==> InterruptDescriptorTable::is_missing(
                #[trigger] idt.interrupts@[i],
            ),
        InterruptDescriptorTable::is_missing(idt.divide_error),
        InterruptDescriptorTable::is_missing(idt.debug),
        InterruptDescriptorTable::is_missing(idt.non_maskable_interrupt),
        InterruptDescriptorTable::is_missing(idt.overflow),
        InterruptDescriptorTable::is_missing(idt.invalid_opcode),
        InterruptDescriptorTable::is_missing(idt.invalid_tss),
        InterruptDescriptorTable::is_missing(idt.segment_not_present),
        InterruptDescriptorTable::is_missing(idt.stack_segment_fault),
        InterruptDescriptorTable::is_missing(idt.machine_check),
{
    let mut idt = InterruptDescriptorTable::new();
    idt.breakpoint.set_handler_fn(handlers.breakpoint, code_selector);
    idt.double_fault.set_handler_fn(handlers.double_fault, code_selector);
    idt.double_fault.set_stack_index(DOUBLE_FAULT_IST_INDEX);
    idt.general_protection_fault.set_handler_fn(handlers.general_protection_fault, code_selector);
    idt.set_interrupt_handler(InterruptIndex::Timer.as_usize(), handlers.timer, code_selector);
    idt.set_interrupt_handler(InterruptIndex::Keyboard.as_usize(), handlers.keyboard, code_selector);
    idt.set_interrupt_handler(InterruptIndex::Spurious.as_usize(), handlers.spurious, code_selector);
    idt.page_fault.set_handler_fn(handlers.page_fault, code_selector);
    idt
}

/// The number of timer ticks between two log lines of the timer handler: one
/// line a second.
pub const TICKS_PER_LOG_LINE: u64 = 100;

/// What the timer handler does with its tick counter: it tells whether this
/// tick is one to log, and with which second, and counts the tick.
pub fn timer_tick(counter: &mut u64) -> (second: Option<u64>)
    requires
        *old(counter) < u64::MAX,
    ensures
        *final(counter) == *old(counter) + 1,
        second == (if *old(counter) % TICKS_PER_LOG_LINE == 0 {
            Some(*old(counter) / TICKS_PER_LOG_LINE)
        } else {
            None
        }),
{
    let second = if *counter % TICKS_PER_LOG_LINE == 0 {
        Some(*counter / TICKS_PER_LOG_LINE)
    } else {
        None
    };
    *counter = *counter + 1;
    second
}

} // verus!
