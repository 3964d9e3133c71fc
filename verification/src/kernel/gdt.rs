//! The global descriptor table and the task state segment.

use vstd::prelude::*;
use crate::shared::addr::{sign_extend, VirtAddr};
use crate::shared::bits::{bit_field, get_bits, set_bits};

verus! {

/// The size of a task state segment in bytes.
pub const TSS_SIZE: u16 = 104;

/// The entry of the interrupt stack table that the double-fault handler
/// runs on.
pub const DOUBLE_FAULT_IST_INDEX: u16 = 0;

/// The size of the double-fault stack in bytes.
pub const DOUBLE_FAULT_STACK_SIZE: u64 = 4096 * 5;

/// The task state segment.
#[derive(Clone, Copy, Debug)]
pub struct TaskStateSegment {
    reserved_1: u32,
    /// The stack pointers for the privilege levels 0 to 2.
    pub privilege_stack_table: [VirtAddr; 3],
    reserved_2: u64,
    /// The stack pointers of the interrupt stack table.
    pub interrupt_stack_table: [VirtAddr; 7],
    reserved_3: u64,
    reserved_4: u16,
    /// The offset of the I/O permission bitmap from the start of the segment.
    pub iomap_base: u16,
}

impl TaskStateSegment {
    /// The fields that the processor reserves are zero.
    pub closed spec fn reserved_clear(&self) -> bool {
        self.reserved_1 == 0 && self.reserved_2 == 0 && self.reserved_3 == 0 && self.reserved_4 == 0
    }

    /// The stack pointers of the interrupt stack table.
    pub closed spec fn interrupt_stacks(&self) -> Seq<VirtAddr> {
        self.interrupt_stack_table@
    }

    /// The stack pointers of the privilege levels.
    pub closed spec fn privilege_stacks(&self) -> Seq<VirtAddr> {
        self.privilege_stack_table@
    }

    /// The offset of the I/O permission bitmap.
    pub closed spec fn iomap(&self) -> u16 {
        self.iomap_base
    }

    /// A segment with every stack pointer zero and without an I/O permission
    /// bitmap: the bitmap's offset is the size of the segment.
    pub fn new() -> (tss: TaskStateSegment)
        ensures
            tss.reserved_clear(),
            tss.iomap() == TSS_SIZE,
            forall|i: int| 0 <= i < 7 ==> (#[trigger] tss.interrupt_stacks()[i]).0 == 0,
            forall|i: int| 0 <= i < 3 ==> (#[trigger] tss.privilege_stacks()[i]).0 == 0,
    {
        TaskStateSegment {
            privilege_stack_table: [VirtAddr(0);3],
            interrupt_stack_table: [VirtAddr(0);7],
            iomap_base: TSS_SIZE,
            reserved_1: 0,
            reserved_2: 0,
            reserved_3: 0,
            reserved_4: 0,
        }
    }

    /// The segment of the kernel: as `new`, with the double-fault entry of
    /// the interrupt stack table pointing to the end of the stack of
    /// `DOUBLE_FAULT_STACK_SIZE` bytes that starts at `stack_start`.
    pub fn with_double_fault_stack(stack_start: u64) -> (tss: TaskStateSegment)
        requires
            sign_extend(stack_start) + DOUBLE_FAULT_STACK_SIZE <= u64::MAX,
        ensures
            tss.reserved_clear(),
            tss.iomap() == TSS_SIZE,
            tss.interrupt_stacks()[DOUBLE_FAULT_IST_INDEX as int].0 == sign_extend(
                (sign_extend(stack_start) + DOUBLE_FAULT_STACK_SIZE) as u64,
            ),
            forall|i: int| 1 <= i < 7 ==> (#[trigger] tss.interrupt_stacks()[i]).0 == 0,
    {
        let mut tss = TaskStateSegment::new();
        let start = VirtAddr::new(stack_start);
        let end = VirtAddr::new(start.0 + DOUBLE_FAULT_STACK_SIZE);
        let ghost fresh = tss;
        tss.interrupt_stack_table[DOUBLE_FAULT_IST_INDEX as usize] = end;
        assert(tss.interrupt_stack_table@ == fresh.interrupt_stack_table@.update(0, end));
        assert forall|i: int| 1 <= i < 7 implies (#[trigger] tss.interrupt_stacks()[i]).0 == 0 by {
            assert(fresh.interrupt_stacks()[i].0 == 0);
        }
        tss
    }
}

/// A privilege level of the processor.
#[derive(Debug, Copy, Clone, PartialEq, Eq, Structural, Hash)]
pub enum PrivilegeLevel {
    /// The level of the kernel.
    Ring0,
    /// A level in between.
    Ring1,
    /// A level in between.
    Ring2,
    /// The level of applications.
    Ring3,
}

impl PrivilegeLevel {
    /// The number of the level.
    pub open spec fn number(self) -> u16 {
        match self {
            PrivilegeLevel::Ring0 => 0,
            PrivilegeLevel::Ring1 => 1,
            PrivilegeLevel::Ring2 => 2,
            PrivilegeLevel::Ring3 => 3,
        }
    }

    /// The level with the number `value`, which is 0 to 3.
    pub fn from_u16(value: u16) -> (level: PrivilegeLevel)
        requires
            value <= 3,
        ensures
            level.number() == value,
    {
        if value == 0 {
            PrivilegeLevel::Ring0
        } else if value == 1 {
            PrivilegeLevel::Ring1
        } else if value == 2 {
            PrivilegeLevel::Ring2
        } else {
            PrivilegeLevel::Ring3
        }
    }

    /// The number of the level.
    pub fn as_u16(self) -> (value: u16)
        ensures
            value == self.number(),
    {
        match self {
            PrivilegeLevel::Ring0 => 0,
            PrivilegeLevel::Ring1 => 1,
            PrivilegeLevel::Ring2 => 2,
            PrivilegeLevel::Ring3 => 3,
        }
    }
}

/// A segment selector: the index of a descriptor, shifted past the three low
/// bits, and the requested privilege level in the two lowest.
#[derive(Clone, Copy, PartialEq, Eq, Structural, PartialOrd, Ord, Hash, Debug)]
pub struct SegmentSelector(pub u16);

impl SegmentSelector {
    /// The selector of the descriptor at `index` with the requested level
    /// `rpl`.
    pub fn new(index: u16, rpl: PrivilegeLevel) -> (selector: SegmentSelector)
        ensures
            selector.0 == (index << 3) | rpl.number(),
    {
        SegmentSelector((index << 3) | rpl.as_u16())
    }
}

/// What `lgdt` and `lidt` take: the size of a table less one, and where it is.
#[derive(Debug, Clone, Copy, PartialEq, Eq, Structural)]
pub struct DescriptorTablePointer {
    /// The size of the table in bytes, less one.
    pub limit: u16,
    /// The address of the table.
    pub base: VirtAddr,
}

/// The segment has been accessed.
pub const ACCESSED: u64 = 0x0000_0100_0000_0000;

/// The segment can be written (data) or read (code).
pub const WRITABLE: u64 = 0x0000_0200_0000_0000;

/// The code segment is conforming.
pub const CONFORMING: u64 = 0x0000_0400_0000_0000;

/// The segment holds code.
pub const EXECUTABLE: u64 = 0x0000_0800_0000_0000;

/// The descriptor describes a code or data segment, not a system segment.
pub const USER_SEGMENT: u64 = 0x0000_1000_0000_0000;

/// The two bits of the descriptor privilege level, both set for ring 3.
pub const DPL_RING_3: u64 = 0x0000_6000_0000_0000;

/// The segment is present.
pub const PRESENT: u64 = 0x0000_8000_0000_0000;

/// A bit left to the operating system.
pub const AVAILABLE: u64 = 0x0010_0000_0000_0000;

/// The code segment runs in 64-bit mode.
pub const LONG_MODE: u64 = 0x0020_0000_0000_0000;

/// Operands are 32 bits wide by default.
pub const DEFAULT_SIZE: u64 = 0x0040_0000_0000_0000;

/// The limit counts pages of 4096 bytes.
pub const GRANULARITY: u64 = 0x0080_0000_0000_0000;

/// Bits 0 to 15 of the limit.
pub const LIMIT_0_15: u64 = 0xFFFF;

/// Bits 16 to 19 of the limit.
pub const LIMIT_16_19: u64 = 0x000F_0000_0000_0000;

/// Bits 0 to 23 of the base.
pub const BASE_0_23: u64 = 0x0000_00FF_FFFF_0000;

/// Bits 24 to 31 of the base.
pub const BASE_24_31: u64 = 0xFF00_0000_0000_0000;

/// The descriptor of the kernel's code segment.
pub const KERNEL_CODE: u64 = 0x00AF_9B00_0000_FFFF;

/// The descriptor of the kernel's data segment.
pub const KERNEL_DATA: u64 = 0x00CF_9300_0000_FFFF;

/// A descriptor of the table.
#[derive(Debug, Clone, Copy, PartialEq, Eq, Structural)]
pub enum Descriptor {
    /// A descriptor of a code or data segment: one entry.
    UserSegment(u64),
    /// A descriptor of a system segment, such as a task state segment: two
    /// entries, the low one first.
    SystemSegment(u64, u64),
}

proof fn lemma_descriptor_bits(low: u64)
    by (bit_vector)
    ensures
        (low & 0x0000_6000_0000_0000) >> 45 <= 3,
        0x0000_1000_0000_0000u64 | 0x0000_8000_0000_0000u64 | 0x0000_0200_0000_0000u64
            | 0x0000_0100_0000_0000u64 | 0xFFFFu64 | 0x000F_0000_0000_0000u64
            | 0x0080_0000_0000_0000u64 | 0x0000_0800_0000_0000u64 | 0x0020_0000_0000_0000u64
            == 0x00AF_9B00_0000_FFFFu64,
        0x0000_1000_0000_0000u64 | 0x0000_8000_0000_0000u64 | 0x0000_0200_0000_0000u64
            | 0x0000_0100_0000_0000u64 | 0xFFFFu64 | 0x000F_0000_0000_0000u64
            | 0x0080_0000_0000_0000u64 | 0x0040_0000_0000_0000u64 == 0x00CF_9300_0000_FFFFu64,
        (0x00AF_9B00_0000_FFFFu64 & 0x0000_6000_0000_0000) >> 45 == 0,
        (0x00CF_9300_0000_FFFFu64 & 0x0000_6000_0000_0000) >> 45 == 0,
        0x00AF_9B00_0000_FFFFu64 & 0x0020_0000_0000_0000 != 0,
        0x00AF_9B00_0000_FFFFu64 & 0x0000_8000_0000_0000 != 0,
        0x00AF_9B00_0000_FFFFu64 & 0x0000_0800_0000_0000 != 0,
        0x00CF_9300_0000_FFFFu64 & 0x0000_8000_0000_0000 != 0,
        0x00CF_9300_0000_FFFFu64 & 0x0000_0800_0000_0000 == 0,
{
}

/// The low entry of the descriptor of the task state segment at the address
/// `ptr`: present, an available 64-bit task state segment, with the limit of
/// the segment's size less one, bits 0 to 23 of the address in bits 16 to
/// 39, and bits 24 to 31 of the address in bits 56 to 63.
pub open spec fn tss_descriptor_low(ptr: u64) -> u64 {
    PRESENT | ((ptr & 0xFF_FFFF) << 16) | (((ptr >> 24) & 0xFF) << 56) | ((TSS_SIZE - 1) as u64) | (
    0b1001u64 << 40)
}

/// The high entry of the descriptor of the task state segment at `ptr`:
/// bits 32 to 63 of the address.
pub open spec fn tss_descriptor_high(ptr: u64) -> u64 {
    ptr >> 32
}

proof fn lemma_tss_fields(ptr: u64, size: u64)
    by (bit_vector)
    ensures
        ((ptr >> 0) & (0xffff_ffff_ffff_ffffu64 >> 24)) & 0xFF_FFFF == ptr & 0xFF_FFFF,
        ((ptr >> 24) & (0xffff_ffff_ffff_ffffu64 >> 32)) & 0xFF == (ptr >> 24) & 0xFF,
        0u64 | ((ptr >> 32) << 0) == ptr >> 32,
        size << 0 == size,
{
}

impl Descriptor {
    /// The low entry of the descriptor.
    pub open spec fn low(self) -> u64 {
        match self {
            Descriptor::UserSegment(value) => value,
            Descriptor::SystemSegment(value, _) => value,
        }
    }

    /// The number of the descriptor's privilege level: bits 45 and 46 of
    /// its low entry.
    pub open spec fn level(self) -> u16 {
        ((self.low() & DPL_RING_3) >> 45) as u16
    }

    /// The number of entries that the descriptor takes in the table.
    pub open spec fn entries(self) -> int {
        match self {
            Descriptor::UserSegment(_) => 1,
            Descriptor::SystemSegment(_, _) => 2,
        }
    }

    /// The descriptor of the kernel's code segment: a present, executable
    /// user segment for 64-bit mode at ring 0.
    pub fn kernel_code_segment() -> (d: Descriptor)
        ensures
            d == Descriptor::UserSegment(KERNEL_CODE),
            d.low() & LONG_MODE != 0,
            d.low() & PRESENT != 0,
            d.low() & EXECUTABLE != 0,
            d.level() == 0,
    {
        proof {
            lemma_descriptor_bits(0);
        }
        Descriptor::UserSegment(
            USER_SEGMENT | PRESENT | WRITABLE | ACCESSED | LIMIT_0_15 | LIMIT_16_19 | GRANULARITY
                | EXECUTABLE | LONG_MODE,
        )
    }

    /// The descriptor of the kernel's data segment: a present user segment
    /// that is not executable, at ring 0.
    pub fn kernel_data_segment() -> (d: Descriptor)
        ensures
            d == Descriptor::UserSegment(KERNEL_DATA),
            d.low() & PRESENT != 0,
            d.low() & EXECUTABLE == 0,
            d.level() == 0,
    {
        proof {
            lemma_descriptor_bits(0);
        }
        Descriptor::UserSegment(
            USER_SEGMENT | PRESENT | WRITABLE | ACCESSED | LIMIT_0_15 | LIMIT_16_19 | GRANULARITY
                | DEFAULT_SIZE,
        )
    }

    /// The privilege level of the descriptor.
    pub fn dpl(self) -> (level: PrivilegeLevel)
        ensures
            level.number() == self.level(),
    {
        let value_low = match self {
            Descriptor::UserSegment(v) => v,
            Descriptor::SystemSegment(v, _) => v,
        };
        proof {
            lemma_descriptor_bits(value_low);
        }
        let dpl = (value_low & DPL_RING_3) >> 45;
        PrivilegeLevel::from_u16(dpl as u16)
    }

    /// The descriptor of the task state segment at the address `tss`.
    pub fn tss_segment_unchecked(tss: u64) -> (d: Descriptor)
        ensures
            d == Descriptor::SystemSegment(tss_descriptor_low(tss), tss_descriptor_high(tss)),
    {
        proof {
            lemma_tss_fields(tss, (TSS_SIZE - 1) as u64);
        }
        let mut low: u64 = PRESENT;
        set_bits(&mut low, get_bits(tss, 0..24) & 0xFF_FFFF, 16);
        set_bits(&mut low, get_bits(tss, 24..32) & 0xFF, 56);
        set_bits(&mut low, (TSS_SIZE - 1) as u64, 0);
        set_bits(&mut low, 0b1001, 40);
        let mut high: u64 = 0;
        set_bits(&mut high, get_bits(tss, 32..64), 0);
        Descriptor::SystemSegment(low, high)
    }

    /// The descriptor of the task state segment at the address `tss`.
    pub fn tss_segment(tss: u64) -> (d: Descriptor)
        ensures
            d == Descriptor::SystemSegment(tss_descriptor_low(tss), tss_descriptor_high(tss)),
    {
        Self::tss_segment_unchecked(tss)
    }
}

/// The global descriptor table: eight entries, the first always zero.
#[derive(Debug, Clone, Copy)]
pub struct GlobalDescriptorTable {
    table: [u64; 8],
    len: usize,
}

impl GlobalDescriptorTable {
    /// The entries in use, the null entry first.
    pub closed spec fn view(&self) -> Seq<u64> {
        self.table@.take(self.len as int)
    }

    /// All eight slots of the table, those not in use too.
    pub closed spec fn slots(&self) -> Seq<u64> {
        self.table@
    }

    /// One to eight entries are in use, and the slots behind them are zero.
    pub closed spec fn wf(&self) -> bool {
        &&& 1 <= self.len <= 8
        &&& forall|i: int| self.len <= i < 8 ==> self.table@[i] == 0
    }

    /// The entries in use are the first of the eight slots; the rest is
    /// zero.
    pub proof fn lemma_slots(&self)
        requires
            self.wf(),
        ensures
            self.slots().len() == 8,
            self@.len() <= 8,
            self@ == self.slots().take(self@.len() as int),
            forall|i: int| self@.len() <= i < 8 ==> self.slots()[i] == 0,
    {
    }

    /// A table that holds the null entry only: all eight slots are zero.
    pub fn new() -> (gdt: GlobalDescriptorTable)
        ensures
            gdt.wf(),
            gdt@ == seq![0u64],
            gdt.slots() == Seq::new(8, |i: int| 0u64),
    {
        let gdt = GlobalDescriptorTable { table: [0;8], len: 1 };
        assert(gdt@ =~= seq![0u64]);
        assert(gdt.slots() =~= Seq::new(8, |i: int| 0u64));
        gdt
    }

    /// The slot at `index`, in use or not.
    pub fn slot(&self, index: usize) -> (value: u64)
        requires
            index < 8,
        ensures
            value == self.slots()[index as int],
    {
        self.table[index]
    }

    fn push(&mut self, value: u64) -> (index: usize)
        requires
            old(self).wf(),
            old(self).len < 8,
        ensures
            final(self).wf(),
            index == old(self)@.len(),
            final(self)@ == old(self)@.push(value),
            final(self).slots() == old(self).slots().update(old(self)@.len() as int, value),
            final(self).len == old(self).len + 1,
    {
        let index = self.len;
        self.table[index] = value;
        self.len = self.len + 1;
        assert(self@ =~= old(self)@.push(value));
        assert(self.slots() =~= old(self).slots().update(index as int, value));
        index
    }

    /// The number of entries in use.
    pub fn len(&self) -> (len: usize)
        requires
            self.wf(),
        ensures
            len == self@.len(),
            1 <= len <= 8,
    {
        self.len
    }

    /// The entry at `index`.
    pub fn entry(&self, index: usize) -> (value: u64)
        requires
            self.wf(),
            index < self@.len(),
        ensures
            value == self@[index as int],
    {
        self.table[index]
    }

    /// Adds a descriptor at the end of the table and returns its selector:
    /// the index of its first entry, with its own privilege level as the
    /// requested one. The table must have room for the descriptor.
    pub fn add_entry(&mut self, entry: Descriptor) -> (selector: SegmentSelector)
        requires
            old(self).wf(),
            old(self)@.len() + entry.entries() <= 8,
        ensures
            final(self).wf(),
            final(self)@ == (match entry {
                Descriptor::UserSegment(value) => old(self)@.push(value),
                Descriptor::SystemSegment(low, high) => old(self)@.push(low).push(high),
            }),
            final(self).slots() == (match entry {
                Descriptor::UserSegment(value) => old(self).slots().update(
                    old(self)@.len() as int,
                    value,
                ),
                Descriptor::SystemSegment(low, high) => old(self).slots().update(
                    old(self)@.len() as int,
                    low,
                ).update(old(self)@.len() as int + 1, high),
            }),
            selector.0 == ((old(self)@.len() as u16) << 3) | entry.level(),
    {
        let index = match entry {
            Descriptor::UserSegment(value) => self.push(value),
            Descriptor::SystemSegment(value_low, value_high) => {
                let index = self.push(value_low);
                self.push(value_high);
                index
            },
        };
        SegmentSelector::new(index as u16, entry.dpl())
    }

    /// What `lgdt` takes for this table, where the table lies at `table_addr`.
    pub fn pointer(&self, table_addr: u64) -> (pointer: DescriptorTablePointer)
        requires
            self.wf(),
        ensures
            pointer.limit == self@.len() * 8 - 1,
            pointer.base.0 == sign_extend(table_addr),
    {
        DescriptorTablePointer {
            base: VirtAddr::new(table_addr),
            limit: (self.len * 8 - 1) as u16,
        }
    }
}

/// The table of the kernel and the selectors of its segments.
pub struct GdtAndSelectors {
    pub gdt: GlobalDescriptorTable,
    pub code_selector: SegmentSelector,
    pub tss_selector: SegmentSelector,
    pub data_selector: SegmentSelector,
}

/// Builds the kernel's table: the null entry, the kernel code segment, the
/// task state segment at the address `tss` in two entries, and the kernel
/// data segment.
pub fn init(tss: u64) -> (r: GdtAndSelectors)
    ensures
        r.gdt.wf(),
        r.gdt@ == seq![0u64, KERNEL_CODE, tss_descriptor_low(tss), tss_descriptor_high(tss), KERNEL_DATA],
        r.code_selector.0 == (1u16 << 3) | 0,
        r.tss_selector.0 == (2u16 << 3) | Descriptor::SystemSegment(
            tss_descriptor_low(tss),
            tss_descriptor_high(tss),
        ).level(),
        r.data_selector.0 == (4u16 << 3) | 0,
{
    let mut gdt = GlobalDescriptorTable::new();
    let code_selector = gdt.add_entry(Descriptor::kernel_code_segment());
    let tss_selector = gdt.add_entry(Descriptor::tss_segment(tss));
    let data_selector = gdt.add_entry(Descriptor::kernel_data_segment());
    assert(gdt@ =~= seq![
        0u64,
        KERNEL_CODE,
        tss_descriptor_low(tss),
        tss_descriptor_high(tss),
        KERNEL_DATA,
    ]);
    GdtAndSelectors { gdt, code_selector, tss_selector, data_selector }
}

} // verus!
