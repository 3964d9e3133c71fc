//! The interrupt descriptor table.

use vstd::prelude::*;
use crate::kernel::addr::VirtAddr;
use crate::shared::addr::{accepted_by_check, is_canonical, sign_extend};
use crate::shared::bits::{bit_field, get_bits};

verus! {

/// The options of an entry with only the bits set that must be one: the
/// entry is an interrupt gate that is not present.
pub const MINIMAL_OPTIONS: u16 = 0b1110_0000_0000;

/// The bit of the options that marks the entry present.
pub const PRESENT_BIT: u16 = 0x8000;

/// The size of the table in bytes.
pub const IDT_SIZE: usize = 4096;

/// The options of an entry.
#[derive(Clone, Copy, PartialEq, Eq, Structural, Debug)]
pub struct EntryOptions(pub u16);

impl EntryOptions {
    /// The options with only the must-be-one bits set.
    pub fn minimal() -> (options: EntryOptions)
        ensures
            options.0 == MINIMAL_OPTIONS,
    {
        EntryOptions(MINIMAL_OPTIONS)
    }

    /// Marks the entry present. Returns the options, so that a further
    /// setter can follow.
    pub fn set_present(&mut self) -> (options: &mut Self)
        ensures
            options.0 == old(self).0 | PRESENT_BIT,
            *final(self) == *final(options),
    {
        self.0 = self.0 | PRESENT_BIT;
        self
    }

    /// Makes the handler run on the stack with the number `index` of the
    /// interrupt stack table. The processor counts these stacks from 1, so
    /// `index + 1` is what is ored into the options. Returns the options.
    pub fn set_stack_index(&mut self, index: u16) -> (options: &mut Self)
        requires
            index < 0xFFFF,
        ensures
            options.0 == old(self).0 | (bit_field((index + 1) as u64, 0, 3) as u16),
            *final(self) == *final(options),
    {
        let mask = index + 1;
        self.0 = self.0 | (get_bits(mask as u64, 0..3) as u16);
        self
    }
}

/// The address that a handler runs at.
pub trait HandlerFuncType {
    /// The virtual address of the handler.
    fn to_virt_addr(self) -> VirtAddr;
}

/// A handler, given by the address of its first instruction.
#[derive(Clone, Copy, PartialEq, Eq, Structural, Debug)]
pub struct HandlerAddress(pub u64);

impl HandlerFuncType for HandlerAddress {
    /// The address of the handler, bit 47 extended over bits 48 to 63.
    fn to_virt_addr(self) -> (addr: VirtAddr)
        ensures
            addr.0 == sign_extend(self.0),
            is_canonical(addr.0),
    {
        VirtAddr::new_truncate(self.0)
    }
}

/// An entry of the table.
#[derive(Clone, Copy, PartialEq, Eq, Structural, Debug)]
pub struct Entry {
    pointer_low: u16,
    gdt_selector: u16,
    options: EntryOptions,
    pointer_middle: u16,
    pointer_high: u32,
    reserved: u32,
}

/// The address that the three pointer fields of an entry spell.
pub open spec fn joined(low: u16, middle: u16, high: u32) -> u64 {
    (low as u64) | ((middle as u64) << 16) | ((high as u64) << 32)
}

proof fn lemma_pointer_parts(addr: u64)
    by (bit_vector)
    ensures
        ((addr & 0xFFFF) as u16 as u64) | ((((addr >> 16) & 0xFFFF) as u16 as u64) << 16) | (((addr
            >> 32) as u32 as u64) << 32) == addr,
        addr & 0xFFFF <= 0xFFFF,
        (addr >> 16) & 0xFFFF <= 0xFFFF,
        addr >> 32 <= 0xFFFF_FFFF,
{
}

/// The low word of an entry as the processor reads it.
pub open spec fn encoded_low(pointer: u64, selector: u16, options: u16) -> u64 {
    (pointer & 0xFFFF) | ((selector as u64) << 16) | ((options as u64) << 32) | (((pointer >> 16)
        & 0xFFFF) << 48)
}

proof fn lemma_encoding(low: u16, middle: u16, high: u32)
    by (bit_vector)
    ensures
        ((low as u64) | ((middle as u64) << 16) | ((high as u64) << 32)) & 0xFFFF == low as u64,
        (((low as u64) | ((middle as u64) << 16) | ((high as u64) << 32)) >> 16) & 0xFFFF
            == middle as u64,
        ((low as u64) | ((middle as u64) << 16) | ((high as u64) << 32)) >> 32 == high as u64,
{
}

impl Entry {
    /// The address of the handler as the entry holds it.
    pub closed spec fn pointer(&self) -> u64 {
        joined(self.pointer_low, self.pointer_middle, self.pointer_high)
    }

    /// The code segment selector of the entry.
    pub closed spec fn selector(&self) -> u16 {
        self.gdt_selector
    }

    /// The options of the entry.
    pub closed spec fn flags(&self) -> u16 {
        self.options.0
    }

    /// An entry that is not present: no handler, no selector, the minimal
    /// options.
    pub fn missing() -> (entry: Entry)
        ensures
            entry.flags() == MINIMAL_OPTIONS,
            entry.selector() == 0,
            entry.pointer() == joined(0, 0, 0),
    {
        Entry {
            gdt_selector: 0,
            pointer_low: 0,
            pointer_middle: 0,
            pointer_high: 0,
            options: EntryOptions::minimal(),
            reserved: 0,
        }
    }

    /// Makes the entry point to the handler at `addr`, to be run in the code
    /// segment `code_selector`, and marks it present.
    pub fn set_handler_addr(&mut self, addr: VirtAddr, code_selector: u16)
        ensures
            final(self).pointer() == addr.0,
            final(self).selector() == code_selector,
            final(self).flags() == old(self).flags() | PRESENT_BIT,
    {
        let addr = addr.0;
        proof {
            lemma_pointer_parts(addr);
        }
        self.pointer_low = (addr & 0xFFFF) as u16;
        self.pointer_middle = ((addr >> 16) & 0xFFFF) as u16;
        self.pointer_high = (addr >> 32) as u32;
        self.gdt_selector = code_selector;
        self.options.set_present();
    }

    /// Makes the entry point to `handler`, as `set_handler_addr` does.
    pub fn set_handler_fn(&mut self, handler: HandlerAddress, code_selector: u16)
        ensures
            final(self).pointer() == sign_extend(handler.0),
            final(self).selector() == code_selector,
            final(self).flags() == old(self).flags() | PRESENT_BIT,
    {
        let addr = handler.to_virt_addr();
        self.set_handler_addr(addr, code_selector);
    }

    /// Makes the handler of the entry run on the stack with the number
    /// `index` of the interrupt stack table.
    pub fn set_stack_index(&mut self, index: u16)
        requires
            index < 0xFFFF,
        ensures
            final(self).pointer() == old(self).pointer(),
            final(self).selector() == old(self).selector(),
            final(self).flags() == old(self).flags() | (bit_field((index + 1) as u64, 0, 3) as u16),
    {
        self.options.set_stack_index(index);
    }

    /// The address of the handler, made canonical.
    pub fn handler_addr(&self) -> (addr: VirtAddr)
        ensures
            addr.0 == sign_extend(self.pointer()),
    {
        let addr = self.pointer_low as u64 | (self.pointer_middle as u64) << 16
            | (self.pointer_high as u64) << 32;
        VirtAddr::new_truncate(addr)
    }

    /// The two words of the entry as the processor reads them: the low
    /// word holds bits 0 to 15 of the handler's address, the selector, the
    /// options and bits 16 to 31 of the address, the high word bits 32 to 63.
    pub fn encode(&self) -> (words: (u64, u64))
        ensures
            words.0 == encoded_low(self.pointer(), self.selector(), self.flags()),
            words.1 == self.pointer() >> 32,
    {
        proof {
            lemma_encoding(self.pointer_low, self.pointer_middle, self.pointer_high);
        }
        let low = self.pointer_low as u64 | (self.gdt_selector as u64) << 16 | (self.options.0 as u64) << 32
            | (self.pointer_middle as u64) << 48;
        (low, self.pointer_high as u64)
    }

    /// The options of the entry.
    pub fn options(&self) -> (options: EntryOptions)
        ensures
            options.0 == self.flags(),
    {
        self.options
    }

    /// The code segment selector of the entry.
    pub fn gdt_selector(&self) -> (selector: u16)
        ensures
            selector == self.selector(),
    {
        self.gdt_selector
    }
}

/// What the processor pushes on the stack before it calls a handler.
#[derive(Clone, Copy, PartialEq, Eq, Structural, Debug)]
pub struct InterruptStackFrameValue {
    /// The instruction to return to.
    pub instruction_pointer: VirtAddr,
    /// The code segment selector, padded with zeros.
    pub code_segment: u64,
    /// The flags register before the handler was called.
    pub cpu_flags: u64,
    /// The stack pointer at the time of the interrupt.
    pub stack_pointer: VirtAddr,
    /// The stack segment selector at the time of the interrupt.
    pub stack_segment: u64,
}

/// The stack frame that a handler receives.
#[derive(Clone, Copy, PartialEq, Eq, Structural, Debug)]
pub struct InterruptStackFrame {
    pub value: InterruptStackFrameValue,
}

/// Page fault error code: the page was present and protected.
pub const PROTECTION_VIOLATION: u64 = 1;

/// Page fault error code: the access was a write.
pub const CAUSED_BY_WRITE: u64 = 0x2;

/// Page fault error code: the access came from user mode.
pub const USER_MODE: u64 = 0x4;

/// Page fault error code: a reserved bit of a page-table entry was set.
pub const MALFORMED_TABLE: u64 = 0x8;

/// Page fault error code: the access was an instruction fetch.
pub const INSTRUCTION_FETCH: u64 = 0x10;

/// Page fault error code: a protection key forbade the access.
pub const PROTECTION_KEY: u64 = 0x20;

/// Page fault error code: the access was to a shadow stack.
pub const SHADOW_STACK: u64 = 0x40;

/// Page fault error code: SGX forbade the access.
pub const SGX: u64 = 0x8000;

/// Page fault error code: the reverse map table forbade the access.
pub const RMP: u64 = 0x8000_0000;

/// The bits of a page fault error code that have a meaning.
pub const PAGE_FAULT_BITS: u64 = 0x8000_807F;

/// The error code that the processor pushes for a page fault.
#[derive(Clone, Copy, PartialEq, Eq, Structural, Debug)]
pub struct PageFaultErrorCode(pub u64);

impl PageFaultErrorCode {
    /// The error code with the bits of `bits` that have a meaning.
    pub fn from_bits_truncate(bits: u64) -> (code: PageFaultErrorCode)
        ensures
            code.0 == bits & PAGE_FAULT_BITS,
    {
        PageFaultErrorCode(bits & PAGE_FAULT_BITS)
    }

    /// Tells whether every bit of `flag` is set in the code.
    pub fn contains(&self, flag: u64) -> (set: bool)
        ensures
            set == (self.0 & flag == flag),
    {
        self.0 & flag == flag
    }
}

/// What `lidt` takes: the size of the table less one, and where it is.
#[derive(Debug, Clone, Copy, PartialEq, Eq, Structural)]
pub struct DescriptorTablePointer {
    /// The size of the table in bytes, less one.
    pub limit: u16,
    /// The address of the table.
    pub base: VirtAddr,
}

/// The interrupt descriptor table: an entry for each of the 32 exceptions
/// of the processor, and 224 for interrupts.
#[derive(Clone, Copy, Debug)]
pub struct InterruptDescriptorTable {
    pub divide_error: Entry,
    pub debug: Entry,
    pub non_maskable_interrupt: Entry,
    pub breakpoint: Entry,
    pub overflow: Entry,
    pub bound_range_exceeded: Entry,
    pub invalid_opcode: Entry,
    pub device_not_available: Entry,
    pub double_fault: Entry,
    pub coprocessor_segment_overrun: Entry,
    pub invalid_tss: Entry,
    pub segment_not_present: Entry,
    pub stack_segment_fault: Entry,
    pub general_protection_fault: Entry,
    pub page_fault: Entry,
    pub reserved_1: Entry,
    pub x87_floating_point: Entry,
    pub alignment_check: Entry,
    pub machine_check: Entry,
    pub simd_floating_point: Entry,
    pub virtualization: Entry,
    pub cp_protection_exception: Entry,
    pub reserved_2: [Entry; 6],
    pub hv_injection_exception: Entry,
    pub vmm_communication_exception: Entry,
    pub security_exception: Entry,
    pub reserved_3: Entry,
    pub interrupts: [Entry; 224],
}

impl InterruptDescriptorTable {
    /// The entry is as `Entry::missing` makes it.
    pub open spec fn is_missing(entry: Entry) -> bool {
        entry.flags() == MINIMAL_OPTIONS && entry.selector() == 0 && entry.pointer() == joined(
            0,
            0,
            0,
        )
    }

    /// No entry of the named exceptions is present.
    pub open spec fn exceptions_missing(&self) -> bool {
        &&& Self::is_missing(self.divide_error)
        &&& Self::is_missing(self.debug)
        &&& Self::is_missing(self.non_maskable_interrupt)
        &&& Self::is_missing(self.breakpoint)
        &&& Self::is_missing(self.overflow)
        &&& Self::is_missing(self.bound_range_exceeded)
        &&& Self::is_missing(self.invalid_opcode)
        &&& Self::is_missing(self.device_not_available)
        &&& Self::is_missing(self.double_fault)
        &&& Self::is_missing(self.coprocessor_segment_overrun)
        &&& Self::is_missing(self.invalid_tss)
        &&& Self::is_missing(self.segment_not_present)
        &&& Self::is_missing(self.stack_segment_fault)
        &&& Self::is_missing(self.general_protection_fault)
        &&& Self::is_missing(self.page_fault)
        &&& Self::is_missing(self.reserved_1)
        &&& Self::is_missing(self.x87_floating_point)
        &&& Self::is_missing(self.alignment_check)
        &&& Self::is_missing(self.machine_check)
        &&& Self::is_missing(self.simd_floating_point)
        &&& Self::is_missing(self.virtualization)
        &&& Self::is_missing(self.cp_protection_exception)
        &&& Self::is_missing(self.hv_injection_exception)
        &&& Self::is_missing(self.vmm_communication_exception)
        &&& Self::is_missing(self.security_exception)
        &&& Self::is_missing(self.reserved_3)
    }

    /// A table without a present entry.
    pub fn new() -> (idt: InterruptDescriptorTable)
        ensures
            idt.exceptions_missing(),
            forall|i: int| 0 <= i < 6 ==> Self::is_missing(#[trigger] idt.reserved_2@[i]),
            forall|i: int| 0 <= i < 224 ==> Self::is_missing(#[trigger] idt.interrupts@[i]),
    {
        InterruptDescriptorTable {
            divide_error: Entry::missing(),
            debug: Entry::missing(),
            non_maskable_interrupt: Entry::missing(),
            breakpoint: Entry::missing(),
            overflow: Entry::missing(),
            bound_range_exceeded: Entry::missing(),
            invalid_opcode: Entry::missing(),
            device_not_available: Entry::missing(),
            double_fault: Entry::missing(),
            coprocessor_segment_overrun: Entry::missing(),
            invalid_tss: Entry::missing(),
            segment_not_present: Entry::missing(),
            stack_segment_fault: Entry::missing(),
            general_protection_fault: Entry::missing(),
            page_fault: Entry::missing(),
            reserved_1: Entry::missing(),
            x87_floating_point: Entry::missing(),
            alignment_check: Entry::missing(),
            machine_check: Entry::missing(),
            simd_floating_point: Entry::missing(),
            virtualization: Entry::missing(),
            cp_protection_exception: Entry::missing(),
            reserved_2: [Entry::missing();6],
            hv_injection_exception: Entry::missing(),
            vmm_communication_exception: Entry::missing(),
            security_exception: Entry::missing(),
            reserved_3: Entry::missing(),
            interrupts: [Entry::missing();224],
        }
    }

    /// The entry of the exception or interrupt with the number `vector`.
    pub open spec fn entry_of(&self, vector: int) -> Entry {
        if vector == 0 {
            self.divide_error
        } else if vector == 1 {
            self.debug
        } else if vector == 2 {
            self.non_maskable_interrupt
        } else if vector == 3 {
            self.breakpoint
        } else if vector == 4 {
            self.overflow
        } else if vector == 5 {
            self.bound_range_exceeded
        } else if vector == 6 {
            self.invalid_opcode
        } else if vector == 7 {
            self.device_not_available
        } else if vector == 8 {
            self.double_fault
        } else if vector == 9 {
            self.coprocessor_segment_overrun
        } else if vector == 10 {
            self.invalid_tss
        } else if vector == 11 {
            self.segment_not_present
        } else if vector == 12 {
            self.stack_segment_fault
        } else if vector == 13 {
            self.general_protection_fault
        } else if vector == 14 {
            self.page_fault
        } else if vector == 15 {
            self.reserved_1
        } else if vector == 16 {
            self.x87_floating_point
        } else if vector == 17 {
            self.alignment_check
        } else if vector == 18 {
            self.machine_check
        } else if vector == 19 {
            self.simd_floating_point
        } else if vector == 20 {
            self.virtualization
        } else if vector == 21 {
            self.cp_protection_exception
        } else if vector < 28 {
            self.reserved_2@[vector - 22]
        } else if vector == 28 {
            self.hv_injection_exception
        } else if vector == 29 {
            self.vmm_communication_exception
        } else if vector == 30 {
            self.security_exception
        } else if vector == 31 {
            self.reserved_3
        } else {
            self.interrupts@[vector - 32]
        }
    }

    /// The entry of the exception or interrupt with the number `vector`,
    /// for laying the table out in memory.
    pub fn entry(&self, vector: u8) -> (entry: Entry)
        ensures
            entry == self.entry_of(vector as int),
    {
        if vector == 0 {
            self.divide_error
        } else if vector == 1 {
            self.debug
        } else if vector == 2 {
            self.non_maskable_interrupt
        } else if vector == 3 {
            self.breakpoint
        } else if vector == 4 {
            self.overflow
        } else if vector == 5 {
            self.bound_range_exceeded
        } else if vector == 6 {
            self.invalid_opcode
        } else if vector == 7 {
            self.device_not_available
        } else if vector == 8 {
            self.double_fault
        } else if vector == 9 {
            self.coprocessor_segment_overrun
        } else if vector == 10 {
            self.invalid_tss
        } else if vector == 11 {
            self.segment_not_present
        } else if vector == 12 {
            self.stack_segment_fault
        } else if vector == 13 {
            self.general_protection_fault
        } else if vector == 14 {
            self.page_fault
        } else if vector == 15 {
            self.reserved_1
        } else if vector == 16 {
            self.x87_floating_point
        } else if vector == 17 {
            self.alignment_check
        } else if vector == 18 {
            self.machine_check
        } else if vector == 19 {
            self.simd_floating_point
        } else if vector == 20 {
            self.virtualization
        } else if vector == 21 {
            self.cp_protection_exception
        } else if vector < 28 {
            self.reserved_2[vector as usize - 22]
        } else if vector == 28 {
            self.hv_injection_exception
        } else if vector == 29 {
            self.vmm_communication_exception
        } else if vector == 30 {
            self.security_exception
        } else if vector == 31 {
            self.reserved_3
        } else {
            self.interrupts[vector as usize - 32]
        }
    }

    /// Sets the handler of the interrupt with the number `vector`, which is
    /// 32 to 255.
    pub fn set_interrupt_handler(&mut self, vector: usize, handler: HandlerAddress, code_selector: u16)
        requires
            32 <= vector < 256,
        ensures
            final(self).interrupts@[vector - 32].pointer() == sign_extend(handler.0),
            final(self).interrupts@[vector - 32].selector() == code_selector,
            final(self).interrupts@[vector - 32].flags() == old(self).interrupts@[vector - 32].flags()
                | PRESENT_BIT,
            forall|i: int|
                0 <= i < 224 && i != vector - 32 ==> #[trigger] final(self).interrupts@[i] == old(self).interrupts@[i],
            *final(self) == (InterruptDescriptorTable {
                interrupts: final(self).interrupts,
                ..*old(self)
            }),
    {
        let mut entry = self.interrupts[vector - 32];
        entry.set_handler_fn(handler, code_selector);
        self.interrupts[vector - 32] = entry;
    }

    /// The entry of the interrupt with the number `vector`, which is 32 to
    /// 255.
    pub fn interrupt(&self, vector: usize) -> (entry: Entry)
        requires
            32 <= vector < 256,
        ensures
            entry == self.interrupts@[vector - 32],
    {
        self.interrupts[vector - 32]
    }

    /// What `lidt` takes for this table, where the table lies at `table_addr`.
    pub fn pointer(&self, table_addr: u64) -> (pointer: DescriptorTablePointer)
        requires
            accepted_by_check(table_addr),
        ensures
            pointer.limit == IDT_SIZE - 1,
            pointer.base.0 == sign_extend(table_addr),
    {
        DescriptorTablePointer { base: VirtAddr::new(table_addr), limit: (IDT_SIZE - 1) as u16 }
    }
}

} // verus!
