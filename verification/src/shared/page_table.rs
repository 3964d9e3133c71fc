//! Four-level page tables: entries, tables, and an address space that maps,
//! remaps and translates addresses.
//!
//! The tables of an address space are held by value, each under the physical
//! address of the frame it belongs in. The program around the library copies
//! them to and from those frames.

use vstd::prelude::*;
use crate::shared::addr::{accepted_by_check, VirtAddr};
use crate::shared::frame_allocator::{
    frames_of, lemma_frames_aligned, lemma_frames_distinct, FrameAllocator, MemoryMap,
};

verus! {

/// Entries in a page table.
pub const ENTRY_COUNT: usize = 512;

/// The bits of an entry that hold the physical address.
pub const ADDR_MASK: u64 = 0x000f_ffff_ffff_f000;

/// The entry maps something.
pub const PRESENT: u64 = 1;

/// Writes are allowed through the entry.
pub const WRITABLE: u64 = 0x2;

/// User-mode accesses are allowed through the entry.
pub const USER_ACCESSIBLE: u64 = 0x4;

/// Writes go straight to memory.
pub const WRITE_THROUGH: u64 = 0x8;

/// The mapped memory is not cached.
pub const NO_CACHE: u64 = 0x10;

/// Set by the processor when the entry is used.
pub const ACCESSED: u64 = 0x20;

/// Set by the processor on a write through the entry.
pub const DIRTY: u64 = 0x40;

/// The entry maps a huge page. The walk here takes such an entry for a
/// pointer to a table like any other.
pub const HUGE_PAGE: u64 = 0x80;

/// The mapping survives an address-space switch.
pub const GLOBAL: u64 = 0x100;

/// The first of the three bits left to the operating system.
pub const OS_BIT_9: u64 = 0x200;

/// The second of the three bits left to the operating system.
pub const OS_BIT_10: u64 = 0x400;

/// The third of the three bits left to the operating system.
pub const OS_BIT_11: u64 = 0x800;

/// Code in the mapped memory cannot run.
pub const NO_EXECUTE: u64 = 0x8000_0000_0000_0000;

/// `addr` can stand in an entry: it is frame-aligned and below 2^52.
pub open spec fn is_frame_addr(addr: u64) -> bool {
    addr % 4096 == 0 && addr < 0x10_0000_0000_0000
}

/// `flags` holds no address bit.
pub open spec fn is_flags(flags: u64) -> bool {
    flags & ADDR_MASK == 0
}

/// The present bit of an entry word is set.
pub open spec fn word_present(word: u64) -> bool {
    word & PRESENT != 0
}

/// The address that an entry word holds.
pub open spec fn word_addr(word: u64) -> u64 {
    word & ADDR_MASK
}

/// The flags that an entry word holds.
pub open spec fn word_flags(word: u64) -> u64 {
    word & !ADDR_MASK
}

/// The index into the table of `level` (4 for the root, 1 for the leaf) that
/// the virtual address `virt` selects: nine bits, from bit 39, 30, 21 or 12.
pub open spec fn table_index(virt: u64, level: int) -> int {
    if level == 4 {
        (virt as int / 0x80_0000_0000) % 512
    } else if level == 3 {
        (virt as int / 0x4000_0000) % 512
    } else if level == 2 {
        (virt as int / 0x20_0000) % 512
    } else {
        (virt as int / 0x1000) % 512
    }
}

proof fn lemma_index_bits(virt: u64)
    by (bit_vector)
    ensures
        (virt >> 39) & 0x1ff == (virt / 0x80_0000_0000) % 512,
        (virt >> 30) & 0x1ff == (virt / 0x4000_0000) % 512,
        (virt >> 21) & 0x1ff == (virt / 0x20_0000) % 512,
        (virt >> 12) & 0x1ff == (virt / 0x1000) % 512,
        virt & !0xfffu64 == (virt / 4096) * 4096,
        virt & 0xfffu64 == virt % 4096,
{
}

proof fn lemma_entry_bits(addr: u64, flags: u64)
    by (bit_vector)
    requires
        addr % 4096 == 0 && addr < 0x10_0000_0000_0000,
        flags & 0x000f_ffff_ffff_f000 == 0,
    ensures
        (addr | flags) & 0x000f_ffff_ffff_f000 == addr,
        (addr | flags) & !0x000f_ffff_ffff_f000u64 == flags,
        (addr | flags) & 1 == flags & 1,
        addr | 1u64 | 2u64 == addr | 3,
{
}

proof fn lemma_word_bits(word: u64)
    by (bit_vector)
    ensures
        (word & 0x000f_ffff_ffff_f000) % 4096 == 0,
        (word & 0x000f_ffff_ffff_f000) < 0x10_0000_0000_0000,
        (word & !0x000f_ffff_ffff_f000u64) & 0x000f_ffff_ffff_f000 == 0,
        (word & !0x000f_ffff_ffff_f000u64) & 1 == word & 1,
        (word & 0x000f_ffff_ffff_f000) | (word & !0x000f_ffff_ffff_f000u64) == word,
        0u64 & 1 == 0,
        3u64 & 0x000f_ffff_ffff_f000 == 0,
        3u64 & 1 == 1,
        1u64 | 2u64 == 3,
{
}

/// The address and the flags that went into an entry word come out again.
pub proof fn lemma_entry_word(addr: u64, flags: u64)
    requires
        is_frame_addr(addr),
        is_flags(flags),
    ensures
        word_addr(addr | flags) == addr,
        word_flags(addr | flags) == flags,
        word_present(addr | flags) == (flags & PRESENT != 0),
{
    lemma_entry_bits(addr, flags);
}

/// The largest multiple of the page size that is no larger than `addr`.
pub open spec fn page_base(addr: u64) -> u64 {
    ((addr / 4096) * 4096) as u64
}

/// Rounds a physical address down to its frame.
pub fn align_down_u64(addr: u64) -> (base: u64)
    ensures
        base == page_base(addr),
        base % 4096 == 0,
        base <= addr < base + 4096,
{
    proof {
        lemma_index_bits(addr);
    }
    addr & !0xfffu64
}

/// Rounds a virtual address down to its page.
pub fn align_down(addr: VirtAddr) -> (base: VirtAddr)
    ensures
        base.0 == page_base(addr.0),
        base.0 % 4096 == 0,
        base.0 <= addr.0 < base.0 + 4096,
{
    VirtAddr(align_down_u64(addr.0))
}

/// One entry of a page table: a 64-bit word that holds a frame address and
/// flags.
#[derive(Clone, Copy, PartialEq, Eq, Structural, Debug)]
pub struct PageTableEntry(pub u64);

impl PageTableEntry {
    /// An entry that maps nothing.
    pub fn new() -> (entry: PageTableEntry)
        ensures
            entry.0 == 0,
            !word_present(entry.0),
    {
        proof {
            lemma_word_bits(0);
        }
        PageTableEntry(0)
    }

    /// Tells whether the entry is all zero.
    pub fn is_unused(&self) -> (unused: bool)
        ensures
            unused == (self.0 == 0),
    {
        self.0 == 0
    }

    /// Tells whether the present flag is set.
    pub fn is_present(&self) -> (present: bool)
        ensures
            present == word_present(self.0),
    {
        self.0 & PRESENT != 0
    }

    /// The flags of the entry: every bit outside the address.
    pub fn flags(&self) -> (flags: u64)
        ensures
            flags == word_flags(self.0),
            is_flags(flags),
    {
        proof {
            lemma_word_bits(self.0);
        }
        self.0 & !ADDR_MASK
    }

    /// The frame address of the entry.
    pub fn addr(&self) -> (addr: u64)
        ensures
            addr == word_addr(self.0),
            is_frame_addr(addr),
    {
        proof {
            lemma_word_bits(self.0);
        }
        self.0 & ADDR_MASK
    }

    /// Makes the entry hold `addr` and `flags`.
    pub fn set(&mut self, addr: u64, flags: u64)
        requires
            is_frame_addr(addr),
            is_flags(flags),
        ensures
            final(self).0 == addr | flags,
            word_addr(final(self).0) == addr,
            word_flags(final(self).0) == flags,
    {
        proof {
            lemma_entry_word(addr, flags);
        }
        self.0 = addr | flags;
    }

    /// Makes the entry map nothing.
    pub fn clear(&mut self)
        ensures
            final(self).0 == 0,
    {
        self.0 = 0;
    }
}

/// A page table: 512 entries.
#[derive(Clone, Copy)]
pub struct PageTable {
    pub entries: [PageTableEntry; 512],
}

impl PageTable {
    /// The entry words of the table.
    pub open spec fn words(&self) -> Seq<u64> {
        Seq::new(512, |i: int| self.entries@[i].0)
    }

    /// A table whose entries map nothing.
    pub fn new() -> (table: PageTable)
        ensures
            forall|i: int| 0 <= i < 512 ==> #[trigger] table.words()[i] == 0,
    {
        PageTable { entries: [PageTableEntry(0);512] }
    }

    /// Makes every entry map nothing.
    pub fn clear(&mut self)
        ensures
            forall|i: int| 0 <= i < 512 ==> #[trigger] final(self).words()[i] == 0,
    {
        self.entries = [PageTableEntry(0);512];
    }

    /// The entry at `index`.
    pub fn entry(&self, index: usize) -> (entry: PageTableEntry)
        requires
            index < 512,
        ensures
            entry.0 == self.words()[index as int],
    {
        self.entries[index]
    }

    /// Replaces the entry at `index`.
    pub fn set_entry(&mut self, index: usize, entry: PageTableEntry)
        requires
            index < 512,
        ensures
            final(self).words() == old(self).words().update(index as int, entry.0),
    {
        self.entries[index] = entry;
        assert(self.words() =~= old(self).words().update(index as int, entry.0));
    }
}

/// The index into the root table that `virt` selects.
pub fn p4_index(virt: VirtAddr) -> (index: usize)
    ensures
        index == table_index(virt.0, 4),
        index < 512,
{
    proof {
        lemma_index_bits(virt.0);
    }
    ((virt.0 >> 39) & 0x1ff) as usize
}

/// The index into the level-3 table that `virt` selects.
pub fn p3_index(virt: VirtAddr) -> (index: usize)
    ensures
        index == table_index(virt.0, 3),
        index < 512,
{
    proof {
        lemma_index_bits(virt.0);
    }
    ((virt.0 >> 30) & 0x1ff) as usize
}

/// The index into the level-2 table that `virt` selects.
pub fn p2_index(virt: VirtAddr) -> (index: usize)
    ensures
        index == table_index(virt.0, 2),
        index < 512,
{
    proof {
        lemma_index_bits(virt.0);
    }
    ((virt.0 >> 21) & 0x1ff) as usize
}

/// The index into the leaf table that `virt` selects.
pub fn p1_index(virt: VirtAddr) -> (index: usize)
    ensures
        index == table_index(virt.0, 1),
        index < 512,
{
    proof {
        lemma_index_bits(virt.0);
    }
    ((virt.0 >> 12) & 0x1ff) as usize
}

/// The offset of `virt` inside its page.
pub fn page_offset(virt: VirtAddr) -> (offset: u16)
    ensures
        offset == virt.0 % 4096,
{
    proof {
        lemma_index_bits(virt.0);
    }
    (virt.0 & 0xfff) as u16
}

/// Why a mapping could not be made or changed.
#[derive(Clone, Copy, PartialEq, Eq, Structural, Debug)]
pub enum MapError {
    /// The page is mapped already.
    MappingExists,
    /// The page is not mapped.
    NotMapped,
    /// The frame allocator has no frame left for a table that is needed.
    OutOfMemory,
    /// A frame for a new table cannot be reached: its address plus the
    /// mapping offset is no valid virtual address.
    BadVirtualAddress,
    /// The memory map of the allocator is not valid.
    InvalidMemoryMap,
    /// The tables to adopt do not form a hierarchy.
    InvalidTables,
}

/// A page table together with the frame it belongs in and its level: 4
/// for a root table, 1 for a leaf table.
pub struct TableSlot {
    pub frame: u64,
    pub level: u8,
    pub table: PageTable,
}

/// A four-level page-table hierarchy and the frame allocator that feeds it.
pub struct AddressSpace {
    slots: Vec<TableSlot>,
    allocator: FrameAllocator,
    root: u64,
}

/// The leaf entry word that `virt` reaches from the table at `root`, or
/// `None` where an entry of a higher table on the way is not present.
pub open spec fn leaf_word(tables: Map<u64, Seq<u64>>, root: u64, virt: u64) -> Option<u64> {
    let w4 = tables[root][table_index(virt, 4)];
    let w3 = tables[word_addr(w4)][table_index(virt, 3)];
    let w2 = tables[word_addr(w3)][table_index(virt, 2)];
    let w1 = tables[word_addr(w2)][table_index(virt, 1)];
    if word_present(w4) && word_present(w3) && word_present(w2) {
        Some(w1)
    } else {
        None
    }
}

/// The frame that `virt` is mapped to by the tables under `root`, if any.
pub open spec fn translation_of(tables: Map<u64, Seq<u64>>, root: u64, virt: u64) -> Option<u64> {
    match leaf_word(tables, root, virt) {
        Some(word) => if word_present(word) {
            Some(word_addr(word))
        } else {
            None
        },
        None => None,
    }
}

/// The two addresses select the same entry at every level: they lie in the
/// same page, bits 48 to 63 aside.
pub open spec fn same_page(a: u64, b: u64) -> bool {
    &&& table_index(a, 4) == table_index(b, 4)
    &&& table_index(a, 3) == table_index(b, 3)
    &&& table_index(a, 2) == table_index(b, 2)
    &&& table_index(a, 1) == table_index(b, 1)
}

/// The number of tables that are missing on the way from `root` to the leaf
/// table of `virt`.
pub open spec fn missing_tables(tables: Map<u64, Seq<u64>>, root: u64, virt: u64) -> int {
    let w4 = tables[root][table_index(virt, 4)];
    let w3 = tables[word_addr(w4)][table_index(virt, 3)];
    let w2 = tables[word_addr(w3)][table_index(virt, 2)];
    if !word_present(w4) {
        3
    } else if !word_present(w3) {
        2
    } else if !word_present(w2) {
        1
    } else {
        0
    }
}

/// The frame at `frame` can be reached through the mapping offset: the sum is
/// a virtual address that the checked constructor accepts.
pub open spec fn reachable(frame: u64, offset: u64) -> bool {
    frame + offset <= u64::MAX && accepted_by_check((frame + offset) as u64)
}

/// What stands in the way of taking `needed` table frames from place `cursor`
/// of `frames` on: nothing, the end of the frames (or of the cursor's range),
/// or a frame that cannot be reached through `offset`. The first obstacle
/// counts.
pub open spec fn supply_error(frames: Seq<u64>, cursor: int, needed: int, offset: u64) -> Option<
    MapError,
>
    decreases needed,
{
    if needed <= 0 {
        None
    } else if cursor >= frames.len() || cursor >= usize::MAX {
        Some(MapError::OutOfMemory)
    } else if !reachable(frames[cursor], offset) {
        Some(MapError::BadVirtualAddress)
    } else {
        supply_error(frames, cursor + 1, needed - 1, offset)
    }
}

/// What stands in the way of a supply of frames is the end of the frames or
/// a frame that cannot be reached, and nothing else.
pub proof fn lemma_supply_error_kinds(frames: Seq<u64>, cursor: int, needed: int, offset: u64)
    ensures
        supply_error(frames, cursor, needed, offset) is Some ==> supply_error(
            frames,
            cursor,
            needed,
            offset,
        )->Some_0 == MapError::OutOfMemory || supply_error(frames, cursor, needed, offset)->Some_0
            == MapError::BadVirtualAddress,
    decreases needed,
{
    if needed > 0 && cursor < frames.len() && cursor < usize::MAX && reachable(frames[cursor], offset) {
        lemma_supply_error_kinds(frames, cursor + 1, needed - 1, offset);
    }
}

/// One of the tables sits in the frame `frame` and has the level `level`.
pub open spec fn has_slot(slots: Seq<TableSlot>, frame: u64, level: int) -> bool {
    exists|j: int| 0 <= j < slots.len() && (#[trigger] slots[j]).frame == frame && slots[j].level == level
}

/// One of the tables sits in the frame `frame`.
pub open spec fn has_frame(slots: Seq<TableSlot>, frame: u64) -> bool {
    exists|j: int| 0 <= j < slots.len() && (#[trigger] slots[j]).frame == frame
}

/// The place of the table that sits in the frame `frame`.
pub open spec fn slot_of(slots: Seq<TableSlot>, frame: u64) -> int {
    choose|j: int| 0 <= j < slots.len() && (#[trigger] slots[j]).frame == frame
}

/// No two tables sit in the same frame.
pub open spec fn slots_distinct(slots: Seq<TableSlot>) -> bool {
    forall|i: int, j: int|
        0 <= i < j < slots.len() ==> (#[trigger] slots[i]).frame != (#[trigger] slots[j]).frame
}

/// Every present entry of a table above the leaf level points to a table
/// one level down.
pub open spec fn slots_layered(slots: Seq<TableSlot>) -> bool {
    forall|i: int, k: int|
        0 <= i < slots.len() && 0 <= k < 512 && slots[i].level > 1 && word_present(
            #[trigger] slots[i].table.words()[k],
        ) ==> has_slot(slots, word_addr(slots[i].table.words()[k]), slots[i].level - 1)
}

/// No two present entries of tables above the leaf level point to the same
/// table.
pub open spec fn slots_single_parent(slots: Seq<TableSlot>) -> bool {
    forall|i: int, k: int, i2: int, k2: int|
        0 <= i < slots.len() && 0 <= i2 < slots.len() && 0 <= k < 512 && 0 <= k2 < 512
            && slots[i].level > 1 && slots[i2].level > 1 && word_present(
            #[trigger] slots[i].table.words()[k],
        ) && word_present(#[trigger] slots[i2].table.words()[k2]) && word_addr(
            slots[i].table.words()[k],
        ) == word_addr(slots[i2].table.words()[k2]) ==> i == i2 && k == k2
}

/// No table sits in a frame that stands in `frames` at the place `cursor`
/// or behind it.
pub open spec fn slots_reserved(slots: Seq<TableSlot>, frames: Seq<u64>, cursor: int) -> bool {
    forall|i: int, n: int|
        0 <= i < slots.len() && cursor <= n < frames.len() ==> (#[trigger] frames[n]) != (
        #[trigger] slots[i]).frame
}

/// Every table sits in a frame that an entry can name, and has a level
/// from 1 to 4.
pub open spec fn slots_shaped(slots: Seq<TableSlot>) -> bool {
    forall|i: int|
        0 <= i < slots.len() ==> is_frame_addr((#[trigger] slots[i]).frame) && 1 <= slots[i].level
            <= 4
}

/// The entry words of the tables, by the frame each sits in.
pub open spec fn tables_of(slots: Seq<TableSlot>) -> Map<u64, Seq<u64>> {
    Map::new(|f: u64| has_frame(slots, f), |f: u64| slots[slot_of(slots, f)].table.words())
}

proof fn lemma_slot_table(slots: Seq<TableSlot>, i: int)
    requires
        slots_distinct(slots),
        0 <= i < slots.len(),
    ensures
        tables_of(slots).dom().contains(slots[i].frame),
        tables_of(slots)[slots[i].frame] == slots[i].table.words(),
        slot_of(slots, slots[i].frame) == i,
{
    assert(has_frame(slots, slots[i].frame));
    let j = slot_of(slots, slots[i].frame);
    assert(0 <= j < slots.len() && slots[j].frame == slots[i].frame);
    if j < i {
        assert(slots[j].frame != slots[i].frame);
    } else if i < j {
        assert(slots[i].frame != slots[j].frame);
    }
}

spec fn linked(slots: Seq<TableSlot>, parent: int, index: int, child: int) -> bool {
    &&& word_present(slots[parent].table.words()[index])
    &&& word_addr(slots[parent].table.words()[index]) == slots[child].frame
}

proof fn lemma_path(slots: Seq<TableSlot>, root: u64, virt: u64, s4: int, s3: int, s2: int, s1: int)
    requires
        slots_distinct(slots),
        0 <= s4 < slots.len(),
        0 <= s3 < slots.len(),
        0 <= s2 < slots.len(),
        0 <= s1 < slots.len(),
        slots[s4].frame == root,
        linked(slots, s4, table_index(virt, 4), s3),
        linked(slots, s3, table_index(virt, 3), s2),
        linked(slots, s2, table_index(virt, 2), s1),
    ensures
        leaf_word(tables_of(slots), root, virt) == Some(
            slots[s1].table.words()[table_index(virt, 1)],
        ),
        missing_tables(tables_of(slots), root, virt) == 0,
{
    lemma_slot_table(slots, s4);
    lemma_slot_table(slots, s3);
    lemma_slot_table(slots, s2);
    lemma_slot_table(slots, s1);
}

proof fn lemma_child(slots: Seq<TableSlot>, j: int, k: int) -> (c: int)
    requires
        slots_distinct(slots),
        slots_layered(slots),
        0 <= j < slots.len(),
        0 <= k < 512,
        slots[j].level > 1,
        word_present(slots[j].table.words()[k]),
    ensures
        0 <= c < slots.len(),
        slots[c].frame == word_addr(slots[j].table.words()[k]),
        slots[c].level == slots[j].level - 1,
        tables_of(slots)[slots[c].frame] == slots[c].table.words(),
{
    let word = slots[j].table.words()[k];
    assert(has_slot(slots, word_addr(word), slots[j].level - 1));
    let c = choose|c: int|
        0 <= c < slots.len() && (#[trigger] slots[c]).frame == word_addr(word) && slots[c].level
            == slots[j].level - 1;
    lemma_slot_table(slots, c);
    c
}

proof fn lemma_root(slots: Seq<TableSlot>, root: u64) -> (r: int)
    requires
        slots_distinct(slots),
        has_slot(slots, root, 4),
    ensures
        0 <= r < slots.len(),
        slots[r].frame == root,
        slots[r].level == 4,
        tables_of(slots)[root] == slots[r].table.words(),
{
    let r = choose|r: int|
        0 <= r < slots.len() && (#[trigger] slots[r]).frame == root && slots[r].level == 4;
    lemma_slot_table(slots, r);
    r
}

/// Linking a fresh, empty table into an entry that was not present changes no
/// translation.
proof fn lemma_link_keeps_translations(
    before: Seq<TableSlot>,
    after: Seq<TableSlot>,
    root: u64,
    virt: u64,
    p: int,
    ci: int,
)
    requires
        slots_distinct(before),
        slots_layered(before),
        has_slot(before, root, 4),
        slots_distinct(after),
        after.len() == before.len() + 1,
        0 <= p < before.len(),
        0 <= ci < 512,
        before[p].level > 1,
        !word_present(before[p].table.words()[ci]),
        forall|j: int|
            0 <= j < before.len() ==> (#[trigger] after[j]).frame == before[j].frame
                && after[j].level == before[j].level,
        forall|j: int| 0 <= j < before.len() && j != p ==> (#[trigger] after[j]).table == before[j].table,
        forall|k: int|
            0 <= k < 512 && k != ci ==> #[trigger] after[p].table.words()[k]
                == before[p].table.words()[k],
        word_present(after[p].table.words()[ci]),
        word_addr(after[p].table.words()[ci]) == after[before.len() as int].frame,
        forall|k: int| 0 <= k < 512 ==> #[trigger] after[before.len() as int].table.words()[k] == 0,
    ensures
        translation_of(tables_of(after), root, virt) == translation_of(
            tables_of(before),
            root,
            virt,
        ),
{
    let c = before.len() as int;
    let i4 = table_index(virt, 4);
    let i3 = table_index(virt, 3);
    let i2 = table_index(virt, 2);
    let i1 = table_index(virt, 1);
    lemma_word_bits(0);
    lemma_slot_table(after, c);
    assert(after[c].table.words()[i3] == 0);
    assert(after[c].table.words()[i2] == 0);
    assert(after[c].table.words()[i1] == 0);
    let s4 = lemma_root(before, root);
    lemma_slot_table(after, s4);
    if s4 == p && i4 == ci {
        return ;
    }
    assert(after[s4].table.words()[i4] == before[s4].table.words()[i4]);
    if !word_present(before[s4].table.words()[i4]) {
        return ;
    }
    let s3 = lemma_child(before, s4, i4);
    lemma_slot_table(after, s3);
    if s3 == p && i3 == ci {
        return ;
    }
    assert(after[s3].table.words()[i3] == before[s3].table.words()[i3]);
    if !word_present(before[s3].table.words()[i3]) {
        return ;
    }
    let s2 = lemma_child(before, s3, i3);
    lemma_slot_table(after, s2);
    if s2 == p && i2 == ci {
        return ;
    }
    assert(after[s2].table.words()[i2] == before[s2].table.words()[i2]);
    if !word_present(before[s2].table.words()[i2]) {
        return ;
    }
    let s1 = lemma_child(before, s2, i2);
    lemma_slot_table(after, s1);
    assert(s1 != p);
    assert(after[s1].table.words()[i1] == before[s1].table.words()[i1]);
}

/// Changing the leaf entry of one page changes the translation of no other.
proof fn lemma_leaf_keeps_others(
    before: Seq<TableSlot>,
    after: Seq<TableSlot>,
    root: u64,
    virt: u64,
    other: u64,
    t4: int,
    t3: int,
    t2: int,
    t1: int,
)
    requires
        slots_distinct(before),
        slots_layered(before),
        slots_single_parent(before),
        has_slot(before, root, 4),
        slots_distinct(after),
        after.len() == before.len(),
        0 <= t4 < before.len(),
        0 <= t3 < before.len(),
        0 <= t2 < before.len(),
        0 <= t1 < before.len(),
        before[t4].frame == root,
        before[t4].level == 4,
        before[t3].level == 3,
        before[t2].level == 2,
        before[t1].level == 1,
        linked(before, t4, table_index(virt, 4), t3),
        linked(before, t3, table_index(virt, 3), t2),
        linked(before, t2, table_index(virt, 2), t1),
        forall|j: int|
            0 <= j < before.len() ==> (#[trigger] after[j]).frame == before[j].frame
                && after[j].level == before[j].level,
        forall|j: int|
            0 <= j < before.len() && j != t1 ==> (#[trigger] after[j]).table == before[j].table,
        forall|k: int|
            0 <= k < 512 && k != table_index(virt, 1) ==> #[trigger] after[t1].table.words()[k]
                == before[t1].table.words()[k],
        !same_page(other, virt),
    ensures
        translation_of(tables_of(after), root, other) == translation_of(
            tables_of(before),
            root,
            other,
        ),
{
    let i4 = table_index(other, 4);
    let i3 = table_index(other, 3);
    let i2 = table_index(other, 2);
    let i1 = table_index(other, 1);
    let s4 = lemma_root(before, root);
    lemma_slot_table(after, s4);
    lemma_slot_table(before, t4);
    assert(s4 == t4);
    if !word_present(before[s4].table.words()[i4]) {
        return ;
    }
    let s3 = lemma_child(before, s4, i4);
    lemma_slot_table(after, s3);
    if !word_present(before[s3].table.words()[i3]) {
        return ;
    }
    let s2 = lemma_child(before, s3, i3);
    lemma_slot_table(after, s2);
    if !word_present(before[s2].table.words()[i2]) {
        return ;
    }
    let s1 = lemma_child(before, s2, i2);
    lemma_slot_table(after, s1);
    if s1 == t1 {
        lemma_slot_table(before, s1);
        lemma_slot_table(before, t2);
        lemma_slot_table(before, s2);
        assert(s2 == t2 && i2 == table_index(virt, 2));
        lemma_slot_table(before, t3);
        lemma_slot_table(before, s3);
        assert(s3 == t3 && i3 == table_index(virt, 3));
        assert(i4 == table_index(virt, 4));
        assert(i1 != table_index(virt, 1));
    }
    assert(after[s1].table.words()[i1] == before[s1].table.words()[i1]);
}

/// The tables form a hierarchy under the root table at `root` that the
/// allocator can feed: each table sits in a frame of its own; a present
/// entry of a table above the leaf level points to a table one level down,
/// and no two such entries point to the same table; the root is a table of
/// level 4; and no table sits in a frame that the allocator has yet to hand
/// out.
pub open spec fn hierarchy(slots: Seq<TableSlot>, root: u64, allocator: FrameAllocator) -> bool {
    &&& slots_shaped(slots)
    &&& slots_distinct(slots)
    &&& slots_layered(slots)
    &&& slots_single_parent(slots)
    &&& has_slot(slots, root, 4)
    &&& slots_reserved(slots, allocator.usable_frames(), allocator.cursor() as int)
}

impl AddressSpace {
    /// The tables of the address space: entry words by the physical address of
    /// the table's frame.
    pub closed spec fn tables(&self) -> Map<u64, Seq<u64>> {
        tables_of(self.slots@)
    }

    /// The physical address of the root table.
    pub closed spec fn root_frame(&self) -> u64 {
        self.root
    }

    /// The frame allocator that feeds the address space.
    pub closed spec fn frame_allocator(&self) -> FrameAllocator {
        self.allocator
    }

    /// The frames that the allocator can hand out, in its order.
    pub open spec fn frames(&self) -> Seq<u64> {
        self.frame_allocator().usable_frames()
    }

    /// The number of the next frame that the allocator hands out.
    pub open spec fn cursor(&self) -> int {
        self.frame_allocator().cursor() as int
    }

    /// The leaf entry word that `virt` reaches.
    pub open spec fn leaf(&self, virt: VirtAddr) -> Option<u64> {
        leaf_word(self.tables(), self.root_frame(), virt.0)
    }

    /// The frame that `virt` is mapped to, if it is mapped.
    pub open spec fn translation(&self, virt: VirtAddr) -> Option<u64> {
        translation_of(self.tables(), self.root_frame(), virt.0)
    }

    /// The number of tables missing on the way to the leaf table of `virt`.
    pub open spec fn missing(&self, virt: VirtAddr) -> int {
        missing_tables(self.tables(), self.root_frame(), virt.0)
    }

    /// What stands in the way of supplying the tables missing for `virt`.
    pub open spec fn supply(&self, virt: VirtAddr, offset: u64) -> Option<MapError> {
        supply_error(self.frames(), self.cursor(), self.missing(virt), offset)
    }

    /// The invariant of the address space. The memory map of the allocator is
    /// valid; each table sits in a frame of its own; a present entry of a
    /// table above the leaf level points to a table one level down, and no
    /// two such entries point to the same table; the root is a table of level
    /// 4; and no table sits in a frame that the allocator has yet to hand out.
    pub closed spec fn wf(&self) -> bool {
        self.allocator.map().valid() && hierarchy(self.slots@, self.root, self.allocator)
    }

    fn find(&self, frame: u64) -> (r: Option<usize>)
        ensures
            match r {
                Some(i) => i < self.slots@.len() && self.slots@[i as int].frame == frame,
                None => !has_frame(self.slots@, frame),
            },
    {
        let mut i: usize = 0;
        while i < self.slots.len()
            invariant
                i <= self.slots@.len(),
                forall|j: int| 0 <= j < i ==> (#[trigger] self.slots@[j]).frame != frame,
            decreases self.slots@.len() - i,
        {
            if self.slots[i].frame == frame {
                return Some(i);
            }
            i = i + 1;
        }
        None
    }

    fn descend(&self, slot: usize, index: usize) -> (child: Option<usize>)
        requires
            self.wf(),
            slot < self.slots@.len(),
            index < 512,
            self.slots@[slot as int].level > 1,
        ensures
            match child {
                Some(c) => c < self.slots@.len() && linked(
                    self.slots@,
                    slot as int,
                    index as int,
                    c as int,
                ) && self.slots@[c as int].level == self.slots@[slot as int].level - 1,
                None => !word_present(self.slots@[slot as int].table.words()[index as int]),
            },
    {
        let entry = self.slots[slot].table.entry(index);
        if !entry.is_present() {
            return None;
        }
        let found = self.find(entry.addr());
        proof {
            let word = self.slots@[slot as int].table.words()[index as int];
            assert(has_slot(self.slots@, word_addr(word), self.slots@[slot as int].level - 1));
            let j = choose|j: int|
                0 <= j < self.slots@.len() && (#[trigger] self.slots@[j]).frame == word_addr(word)
                    && self.slots@[j].level == self.slots@[slot as int].level - 1;
            assert(has_frame(self.slots@, word_addr(word)));
            if found is Some {
                let c = found->Some_0 as int;
                if c < j {
                    assert(self.slots@[c].frame != self.slots@[j].frame);
                } else if j < c {
                    assert(self.slots@[j].frame != self.slots@[c].frame);
                }
            }
        }
        found
    }

    fn root_slot(&self) -> (slot: usize)
        requires
            self.wf(),
        ensures
            slot < self.slots@.len(),
            self.slots@[slot as int].frame == self.root,
            self.slots@[slot as int].level == 4,
    {
        let found = self.find(self.root);
        proof {
            let j = choose|j: int|
                0 <= j < self.slots@.len() && (#[trigger] self.slots@[j]).frame == self.root
                    && self.slots@[j].level == 4;
            assert(has_frame(self.slots@, self.root));
            if found is Some {
                let c = found->Some_0 as int;
                if c < j {
                    assert(self.slots@[c].frame != self.slots@[j].frame);
                } else if j < c {
                    assert(self.slots@[j].frame != self.slots@[c].frame);
                }
            }
        }
        match found {
            Some(slot) => slot,
            None => 0,
        }
    }

    fn new_child(&mut self, parent: usize, index: usize) -> (child: usize)
        requires
            old(self).wf(),
            parent < old(self).slots@.len(),
            index < 512,
            old(self).slots@[parent as int].level > 1,
            !word_present(old(self).slots@[parent as int].table.words()[index as int]),
            old(self).cursor() < old(self).frames().len(),
            old(self).cursor() < usize::MAX,
        ensures
            final(self).wf(),
            final(self).root == old(self).root,
            final(self).allocator.map() == old(self).allocator.map(),
            final(self).allocator.offset() == old(self).allocator.offset(),
            final(self).cursor() == old(self).cursor() + 1,
            final(self).slots@.len() == old(self).slots@.len() + 1,
            child == old(self).slots@.len(),
            final(self).slots@[child as int].frame == old(self).frames()[old(self).cursor()],
            final(self).slots@[child as int].level == old(self).slots@[parent as int].level - 1,
            forall|k: int| 0 <= k < 512 ==> #[trigger] final(self).slots@[child as int].table.words()[k] == 0,
            linked(final(self).slots@, parent as int, index as int, child as int),
            forall|j: int|
                0 <= j < old(self).slots@.len() ==> (#[trigger] final(self).slots@[j]).frame == old(self).slots@[j].frame && final(self).slots@[j].level == old(self).slots@[j].level,
            forall|j: int|
                0 <= j < old(self).slots@.len() && j != parent ==> (#[trigger] final(self).slots@[j]).table == old(self).slots@[j].table,
            final(self).slots@[parent as int].table.words() == old(self).slots@[parent as int].table.words().update(
                index as int,
                final(self).slots@[child as int].frame | PRESENT | WRITABLE,
            ),
            forall|v: VirtAddr| #[trigger] final(self).translation(v) == old(self).translation(v),
    {
        let ghost frames = self.frames();
        let ghost cursor = self.cursor();
        let ghost before = self.slots@;
        let frame = match self.allocator.allocate_frame() {
            Some(frame) => frame,
            None => 0,
        };
        assert(frame == frames[cursor]);
        proof {
            lemma_frames_aligned(self.allocator.map(), cursor);
            lemma_word_bits(0);
            lemma_entry_bits(frame, 3);
        }
        let level = self.slots[parent].level - 1;
        let child = self.slots.len();
        self.slots.push(TableSlot { frame, level, table: PageTable::new() });
        let mut entry = PageTableEntry::new();
        entry.set(frame, PRESENT | WRITABLE);
        let mut table = self.slots[parent].table;
        table.set_entry(index, entry);
        let parent_frame = self.slots[parent].frame;
        let parent_level = self.slots[parent].level;
        self.slots[parent] = TableSlot { frame: parent_frame, level: parent_level, table };
        proof {
            let after = self.slots@;
            assert(after.len() == before.len() + 1);
            assert forall|j: int| 0 <= j < before.len() && j != parent implies after[j]
                == before[j] by {}
            assert(after[child as int].frame == frame);
            // a table that was there before is there still
            assert forall|f: u64, l: int| has_slot(before, f, l) implies has_slot(after, f, l) by {
                let j = choose|j: int|
                    0 <= j < before.len() && (#[trigger] before[j]).frame == f && before[j].level
                        == l;
                assert(after[j].frame == f && after[j].level == l);
            }
            assert(has_slot(after, frame, level as int)) by {
                assert(after[child as int].frame == frame && after[child as int].level == level);
            }
            assert(slots_shaped(after));
            assert(slots_distinct(after)) by {
                assert forall|i: int, j: int| 0 <= i < j < after.len() implies (
                #[trigger] after[i]).frame != (#[trigger] after[j]).frame by {
                    if j == child {
                        assert(frames[cursor] != before[i].frame);
                    } else {
                        assert(before[i].frame != before[j].frame);
                    }
                }
            }
            assert(slots_layered(after)) by {
                assert forall|i: int, k: int|
                    0 <= i < after.len() && 0 <= k < 512 && after[i].level > 1 && word_present(
                        #[trigger] after[i].table.words()[k],
                    ) implies has_slot(
                    after,
                    word_addr(after[i].table.words()[k]),
                    after[i].level - 1,
                ) by {
                    if i == child {
                        assert(after[i].table.words()[k] == 0);
                    } else if i == parent && k == index {
                        assert(after[i].table.words()[k] == frame | 3);
                    } else {
                        assert(after[i].table.words()[k] == before[i].table.words()[k]);
                        assert(has_slot(
                            before,
                            word_addr(before[i].table.words()[k]),
                            before[i].level - 1,
                        ));
                    }
                }
            }
            assert(slots_reserved(after, frames, cursor + 1)) by {
                assert forall|i: int, n: int|
                    0 <= i < after.len() && cursor + 1 <= n < frames.len() implies (
                #[trigger] frames[n]) != (#[trigger] after[i]).frame by {
                    if i == child {
                        lemma_frames_distinct(self.allocator.map(), cursor, n);
                    } else {
                        assert(frames[n] != before[i].frame);
                    }
                }
            }
            assert forall|v: VirtAddr| #[trigger]
                self.translation(v) == old(self).translation(v) by {
                lemma_link_keeps_translations(
                    before,
                    after,
                    self.root,
                    v.0,
                    parent as int,
                    index as int,
                );
            }
        }
        child
    }

    fn can_reach(frame: u64, offset: u64) -> (ok: bool)
        ensures
            ok == reachable(frame, offset),
    {
        match frame.checked_add(offset) {
            Some(sum) => VirtAddr::new_checked(sum).is_ok(),
            None => false,
        }
    }

    /// Checks that the allocator can supply `needed` reachable frames.
    fn check_supply(&self, needed: usize, offset: u64) -> (r: Result<(), MapError>)
        requires
            self.wf(),
            needed <= 3,
        ensures
            match r {
                Ok(()) => supply_error(self.frames(), self.cursor(), needed as int, offset) is None
                    && (needed > 0 ==> self.cursor() + needed <= self.frames().len())
                    && self.cursor() + needed <= usize::MAX,
                Err(e) => supply_error(self.frames(), self.cursor(), needed as int, offset) == Some(
                    e,
                ),
            },
    {
        let start = self.allocator.next_frame_index();
        let mut taken: usize = 0;
        while taken < needed
            invariant
                self.wf(),
                start == self.cursor(),
                taken <= needed <= 3,
                start + taken <= usize::MAX,
                taken > 0 ==> start + taken <= self.frames().len(),
                supply_error(self.frames(), self.cursor(), needed as int, offset) == supply_error(
                    self.frames(),
                    self.cursor() + taken,
                    needed - taken,
                    offset,
                ),
            decreases needed - taken,
        {
            if start + taken == usize::MAX {
                return Err(MapError::OutOfMemory);
            }
            match self.allocator.frame_at(start + taken) {
                None => {
                    return Err(MapError::OutOfMemory);
                },
                Some(frame) => {
                    if !Self::can_reach(frame, offset) {
                        return Err(MapError::BadVirtualAddress);
                    }
                },
            }
            taken = taken + 1;
        }
        Ok(())
    }

    /// An address space with an empty root table, taken from `allocator`.
    ///
    /// Fails with `InvalidMemoryMap` where the allocator's memory map is not
    /// valid; else with `OutOfMemory` where the allocator has no frame left;
    /// else with `BadVirtualAddress` where the frame cannot be reached through
    /// the allocator's mapping offset.
    pub fn new(allocator: FrameAllocator) -> (r: Result<AddressSpace, MapError>)
        ensures
            match r {
                Ok(space) => {
                    &&& space.wf()
                    &&& allocator.map().valid()
                    &&& supply_error(
                        allocator.usable_frames(),
                        allocator.cursor() as int,
                        1,
                        allocator.offset(),
                    ) is None
                    &&& space.root_frame() == allocator.usable_frames()[allocator.cursor() as int]
                    &&& space.frame_allocator().map() == allocator.map()
                    &&& space.frame_allocator().offset() == allocator.offset()
                    &&& space.cursor() == allocator.cursor() + 1
                    &&& forall|virt: VirtAddr| #[trigger] space.translation(virt) is None
                },
                Err(e) => if !allocator.map().valid() {
                    e == MapError::InvalidMemoryMap
                } else {
                    supply_error(
                        allocator.usable_frames(),
                        allocator.cursor() as int,
                        1,
                        allocator.offset(),
                    ) == Some(e)
                },
            },
    {
        if !allocator.memory_map().is_valid() {
            return Err(MapError::InvalidMemoryMap);
        }
        let mut allocator = allocator;
        let ghost frames = allocator.usable_frames();
        let ghost cursor = allocator.cursor() as int;
        let offset = allocator.mapping_offset();
        let start = allocator.next_frame_index();
        if start == usize::MAX {
            return Err(MapError::OutOfMemory);
        }
        let frame = match allocator.frame_at(start) {
            Some(frame) => frame,
            None => {
                return Err(MapError::OutOfMemory);
            },
        };
        if !Self::can_reach(frame, offset) {
            return Err(MapError::BadVirtualAddress);
        }
        assert(supply_error(frames, cursor + 1, 0, offset) is None);
        let taken = allocator.allocate_frame();
        let mut slots: Vec<TableSlot> = Vec::new();
        slots.push(TableSlot { frame, level: 4, table: PageTable::new() });
        let space = AddressSpace { slots, allocator, root: frame };
        proof {
            lemma_frames_aligned(allocator.map(), cursor);
            lemma_word_bits(0);
            assert(space.slots@[0].frame == frame && space.slots@[0].level == 4);
            assert(has_slot(space.slots@, frame, 4));
            assert(slots_reserved(space.slots@, frames, cursor + 1)) by {
                assert forall|i: int, n: int|
                    0 <= i < space.slots@.len() && cursor + 1 <= n < frames.len() implies (
                #[trigger] frames[n]) != (#[trigger] space.slots@[i]).frame by {
                    lemma_frames_distinct(allocator.map(), cursor, n);
                }
            }
            assert forall|virt: VirtAddr| #[trigger] space.translation(virt) is None by {
                lemma_slot_table(space.slots@, 0);
                assert(space.slots@[0].table.words()[table_index(virt.0, 4)] == 0);
            }
        }
        Ok(space)
    }

    /// The physical address of the root table.
    pub fn root(&self) -> (frame: u64)
        ensures
            frame == self.root_frame(),
    {
        self.root
    }

    /// The number of the next frame that the allocator hands out.
    pub fn next_frame_index(&self) -> (next: usize)
        ensures
            next == self.cursor(),
    {
        self.allocator.next_frame_index()
    }

    /// The offset at which the allocator's owner sees physical memory.
    pub fn mapping_offset(&self) -> (offset: u64)
        ensures
            offset == self.frame_allocator().offset(),
    {
        self.allocator.mapping_offset()
    }

    /// Takes the next frame from the allocator, for any use. No mapping
    /// changes.
    pub fn allocate_frame(&mut self) -> (frame: Option<u64>)
        requires
            old(self).wf(),
            old(self).cursor() < usize::MAX,
        ensures
            final(self).wf(),
            final(self).tables() == old(self).tables(),
            final(self).root_frame() == old(self).root_frame(),
            final(self).frame_allocator().map() == old(self).frame_allocator().map(),
            final(self).frame_allocator().offset() == old(self).frame_allocator().offset(),
            final(self).cursor() == old(self).cursor() + 1,
            frame == (if old(self).cursor() < old(self).frames().len() {
                Some(old(self).frames()[old(self).cursor()])
            } else {
                None
            }),
            frame is Some ==> is_frame_addr(frame->Some_0),
    {
        proof {
            if self.cursor() < self.frames().len() {
                lemma_frames_aligned(self.allocator.map(), self.cursor());
            }
        }
        self.allocator.allocate_frame()
    }

    /// The allocator never hands out a frame twice: two different places of
    /// its enumeration hold different frames.
    pub proof fn lemma_frames_apart(&self, i: int, j: int)
        requires
            self.wf(),
            0 <= i < j < self.frames().len(),
        ensures
            self.frames()[i] != self.frames()[j],
    {
        lemma_frames_distinct(self.allocator.map(), i, j);
    }

    /// The number of tables.
    pub closed spec fn table_total(&self) -> int {
        self.slots@.len() as int
    }

    /// The number of tables in the address space.
    pub fn table_count(&self) -> (count: usize)
        ensures
            count == self.table_total(),
    {
        self.slots.len()
    }

    /// The frame of the table with number `index`, its level (4 for the root,
    /// 1 for a leaf table) and the table itself, for writing it to its frame.
    pub fn table(&self, index: usize) -> (r: (u64, u8, &PageTable))
        requires
            self.wf(),
            index < self.table_total(),
        ensures
            self.tables().dom().contains(r.0),
            self.tables()[r.0] == r.2.words(),
            1 <= r.1 <= 4,
            is_frame_addr(r.0),
    {
        proof {
            lemma_slot_table(self.slots@, index as int);
        }
        (self.slots[index].frame, self.slots[index].level, &self.slots[index].table)
    }

    /// The frame that `virt` is mapped to, or `None` where an entry on the
    /// way from the root is not present.
    pub fn translate(&self, virt: VirtAddr) -> (frame: Option<u64>)
        requires
            self.wf(),
        ensures
            frame == self.translation(virt),
            frame is Some ==> is_frame_addr(frame->Some_0),
    {
        let s4 = self.root_slot();
        proof {
            lemma_slot_table(self.slots@, s4 as int);
        }
        let s3 = match self.descend(s4, p4_index(virt)) {
            Some(s) => s,
            None => {
                return None;
            },
        };
        proof {
            lemma_slot_table(self.slots@, s3 as int);
        }
        let s2 = match self.descend(s3, p3_index(virt)) {
            Some(s) => s,
            None => {
                return None;
            },
        };
        proof {
            lemma_slot_table(self.slots@, s2 as int);
        }
        let s1 = match self.descend(s2, p2_index(virt)) {
            Some(s) => s,
            None => {
                return None;
            },
        };
        proof {
            lemma_path(self.slots@, self.root, virt.0, s4 as int, s3 as int, s2 as int, s1 as int);
        }
        let entry = self.slots[s1].table.entry(p1_index(virt));
        if entry.is_present() {
            Some(entry.addr())
        } else {
            None
        }
    }

    /// The flags of the leaf entry of `virt`, where `virt` is mapped.
    pub fn flags_of(&self, virt: VirtAddr) -> (flags: Option<u64>)
        requires
            self.wf(),
        ensures
            flags == (match self.leaf(virt) {
                Some(word) => if word_present(word) {
                    Some(word_flags(word))
                } else {
                    None
                },
                None => None,
            }),
    {
        let s4 = self.root_slot();
        proof {
            lemma_slot_table(self.slots@, s4 as int);
        }
        let s3 = match self.descend(s4, p4_index(virt)) {
            Some(s) => s,
            None => {
                return None;
            },
        };
        proof {
            lemma_slot_table(self.slots@, s3 as int);
        }
        let s2 = match self.descend(s3, p3_index(virt)) {
            Some(s) => s,
            None => {
                return None;
            },
        };
        proof {
            lemma_slot_table(self.slots@, s2 as int);
        }
        let s1 = match self.descend(s2, p2_index(virt)) {
            Some(s) => s,
            None => {
                return None;
            },
        };
        proof {
            lemma_path(self.slots@, self.root, virt.0, s4 as int, s3 as int, s2 as int, s1 as int);
        }
        let entry = self.slots[s1].table.entry(p1_index(virt));
        if entry.is_present() {
            Some(entry.flags())
        } else {
            None
        }
    }

    fn set_leaf(&mut self, slot: usize, index: usize, word: u64)
        requires
            old(self).wf(),
            slot < old(self).slots@.len(),
            index < 512,
            old(self).slots@[slot as int].level == 1,
        ensures
            final(self).wf(),
            final(self).root == old(self).root,
            final(self).allocator == old(self).allocator,
            final(self).slots@.len() == old(self).slots@.len(),
            forall|j: int|
                0 <= j < old(self).slots@.len() ==> (#[trigger] final(self).slots@[j]).frame == old(self).slots@[j].frame && final(self).slots@[j].level == old(self).slots@[j].level,
            forall|j: int|
                0 <= j < old(self).slots@.len() && j != slot ==> (#[trigger] final(self).slots@[j]).table == old(self).slots@[j].table,
            final(self).slots@[slot as int].table.words() == old(self).slots@[slot as int].table.words().update(index as int, word),
    {
        let ghost before = self.slots@;
        let mut table = self.slots[slot].table;
        table.set_entry(index, PageTableEntry(word));
        let frame = self.slots[slot].frame;
        self.slots[slot] = TableSlot { frame, level: 1, table };
        proof {
            let after = self.slots@;
            assert forall|j: int| 0 <= j < before.len() && j != slot implies after[j]
                == before[j] by {}
            assert forall|f: u64, l: int| has_slot(before, f, l) implies has_slot(after, f, l) by {
                let j = choose|j: int|
                    0 <= j < before.len() && (#[trigger] before[j]).frame == f && before[j].level
                        == l;
                assert(after[j].frame == f && after[j].level == l);
            }
            assert(slots_distinct(after)) by {
                assert forall|i: int, j: int| 0 <= i < j < after.len() implies (
                #[trigger] after[i]).frame != (#[trigger] after[j]).frame by {
                    assert(before[i].frame != before[j].frame);
                }
            }
            assert(slots_layered(after)) by {
                assert forall|i: int, k: int|
                    0 <= i < after.len() && 0 <= k < 512 && after[i].level > 1 && word_present(
                        #[trigger] after[i].table.words()[k],
                    ) implies has_slot(
                    after,
                    word_addr(after[i].table.words()[k]),
                    after[i].level - 1,
                ) by {
                    assert(after[i].table.words()[k] == before[i].table.words()[k]);
                    assert(has_slot(
                        before,
                        word_addr(before[i].table.words()[k]),
                        before[i].level - 1,
                    ));
                }
            }
            assert(slots_reserved(after, self.allocator.usable_frames(), self.allocator.cursor() as int))
                by {
                let frames = self.allocator.usable_frames();
                assert forall|i: int, n: int|
                    0 <= i < after.len() && self.allocator.cursor() <= n < frames.len() implies (
                #[trigger] frames[n]) != (#[trigger] after[i]).frame by {
                    assert(frames[n] != before[i].frame);
                }
            }
        }
    }

    /// Maps the page of `virt` to the frame `phys`, present and writable.
    /// Tables that are missing on the way are taken from the allocator, which
    /// must be able to reach them through `offset`; each is entered in its
    /// parent as present and writable.
    ///
    /// Fails with `MappingExists` where the page is mapped already, and else
    /// with what `supply` names. A failure changes nothing.
    pub fn map_address_with_offset(&mut self, virt: VirtAddr, phys: u64, offset: u64) -> (r: Result<
        (),
        MapError,
    >)
        requires
            old(self).wf(),
            is_frame_addr(phys),
        ensures
            final(self).wf(),
            final(self).root_frame() == old(self).root_frame(),
            final(self).frame_allocator().map() == old(self).frame_allocator().map(),
            final(self).frame_allocator().offset() == old(self).frame_allocator().offset(),
            match r {
                Ok(()) => {
                    &&& old(self).translation(virt) is None
                    &&& old(self).supply(virt, offset) is None
                    &&& final(self).leaf(virt) == Some(phys | PRESENT | WRITABLE)
                    &&& final(self).translation(virt) == Some(phys)
                    &&& final(self).cursor() == old(self).cursor() + old(self).missing(virt)
                    &&& forall|other: VirtAddr|
                        !same_page(other.0, virt.0) ==> #[trigger] final(self).translation(other)
                            == old(self).translation(other)
                },
                Err(e) => {
                    &&& final(self).tables() == old(self).tables()
                    &&& final(self).cursor() == old(self).cursor()
                    &&& e == (if old(self).translation(virt) is Some {
                        MapError::MappingExists
                    } else {
                        old(self).supply(virt, offset)->Some_0
                    })
                    &&& old(self).translation(virt) is Some || old(self).supply(virt, offset) is Some
                },
            },
    {
        let i4 = p4_index(virt);
        let i3 = p3_index(virt);
        let i2 = p2_index(virt);
        let i1 = p1_index(virt);
        let s4 = self.root_slot();
        proof {
            lemma_slot_table(self.slots@, s4 as int);
        }
        let o3 = self.descend(s4, i4);
        let o2 = match o3 {
            Some(s) => {
                proof {
                    lemma_slot_table(self.slots@, s as int);
                }
                self.descend(s, i3)
            },
            None => None,
        };
        let o1 = match o2 {
            Some(s) => {
                proof {
                    lemma_slot_table(self.slots@, s as int);
                }
                self.descend(s, i2)
            },
            None => None,
        };
        match o1 {
            Some(s) => {
                proof {
                    lemma_path(
                        self.slots@,
                        self.root,
                        virt.0,
                        s4 as int,
                        o3->Some_0 as int,
                        o2->Some_0 as int,
                        s as int,
                    );
                }
                if self.slots[s].table.entry(i1).is_present() {
                    return Err(MapError::MappingExists);
                }
            },
            None => {},
        }
        let needed: usize = if o3.is_none() {
            3
        } else if o2.is_none() {
            2
        } else if o1.is_none() {
            1
        } else {
            0
        };
        assert(needed == self.missing(virt));
        assert(self.translation(virt) is None);
        match self.check_supply(needed, offset) {
            Ok(()) => {},
            Err(e) => {
                return Err(e);
            },
        }
        proof {
            lemma_word_bits(0);
        }
        let s3 = match o3 {
            Some(s) => s,
            None => {
                let child = self.new_child(s4, i4);
                assert(self.slots@[child as int].table.words()[i3 as int] == 0);
                child
            },
        };
        let s2 = match o2 {
            Some(s) => s,
            None => {
                let child = self.new_child(s3, i3);
                assert(self.slots@[child as int].table.words()[i2 as int] == 0);
                child
            },
        };
        let s1 = match o1 {
            Some(s) => s,
            None => self.new_child(s2, i2),
        };
        assert(linked(self.slots@, s4 as int, i4 as int, s3 as int));
        assert(linked(self.slots@, s3 as int, i3 as int, s2 as int));
        assert(linked(self.slots@, s2 as int, i2 as int, s1 as int));
        assert(self.slots@[s4 as int].frame == self.root);
        assert(self.slots@[s1 as int].level == 1);
        proof {
            lemma_word_bits(0);
            lemma_entry_bits(phys, 3);
        }
        let ghost linked_up = *self;
        assert forall|other: VirtAddr| #[trigger]
            linked_up.translation(other) == old(self).translation(other) by {}
        self.set_leaf(s1, i1, phys | PRESENT | WRITABLE);
        proof {
            assert(linked(self.slots@, s4 as int, i4 as int, s3 as int));
            assert(linked(self.slots@, s3 as int, i3 as int, s2 as int));
            assert(linked(self.slots@, s2 as int, i2 as int, s1 as int));
            lemma_path(self.slots@, self.root, virt.0, s4 as int, s3 as int, s2 as int, s1 as int);
            assert forall|other: VirtAddr| !same_page(other.0, virt.0) implies #[trigger]
                self.translation(other) == old(self).translation(other) by {
                lemma_leaf_keeps_others(
                    linked_up.slots@,
                    self.slots@,
                    self.root,
                    virt.0,
                    other.0,
                    s4 as int,
                    s3 as int,
                    s2 as int,
                    s1 as int,
                );
                assert(linked_up.translation(other) == old(self).translation(other));
            }
        }
        Ok(())
    }

    /// Maps the page of `virt` to the frame `phys`, present and writable,
    /// reaching new tables through the allocator's own mapping offset.
    pub fn map_address(&mut self, virt: VirtAddr, phys: u64) -> (r: Result<(), MapError>)
        requires
            old(self).wf(),
            is_frame_addr(phys),
        ensures
            final(self).wf(),
            final(self).root_frame() == old(self).root_frame(),
            final(self).frame_allocator().map() == old(self).frame_allocator().map(),
            final(self).frame_allocator().offset() == old(self).frame_allocator().offset(),
            match r {
                Ok(()) => {
                    &&& old(self).translation(virt) is None
                    &&& old(self).supply(virt, old(self).frame_allocator().offset()) is None
                    &&& final(self).leaf(virt) == Some(phys | PRESENT | WRITABLE)
                    &&& final(self).translation(virt) == Some(phys)
                    &&& final(self).cursor() == old(self).cursor() + old(self).missing(virt)
                    &&& forall|other: VirtAddr|
                        !same_page(other.0, virt.0) ==> #[trigger] final(self).translation(other)
                            == old(self).translation(other)
                },
                Err(e) => {
                    &&& final(self).tables() == old(self).tables()
                    &&& final(self).cursor() == old(self).cursor()
                    &&& e == (if old(self).translation(virt) is Some {
                        MapError::MappingExists
                    } else {
                        old(self).supply(virt, old(self).frame_allocator().offset())->Some_0
                    })
                    &&& old(self).translation(virt) is Some || old(self).supply(
                        virt,
                        old(self).frame_allocator().offset(),
                    ) is Some
                },
            },
    {
        let offset = self.allocator.mapping_offset();
        self.map_address_with_offset(virt, phys, offset)
    }

    /// Points the mapping of the page of `virt` to the frame `phys`. The
    /// flags of the entry stay. Fails with `NotMapped`, and changes nothing,
    /// where the page is not mapped.
    pub fn remap_address(&mut self, virt: VirtAddr, phys: u64) -> (r: Result<(), MapError>)
        requires
            old(self).wf(),
            is_frame_addr(phys),
        ensures
            final(self).wf(),
            final(self).root_frame() == old(self).root_frame(),
            final(self).frame_allocator() == old(self).frame_allocator(),
            match r {
                Ok(()) => {
                    &&& old(self).translation(virt) is Some
                    &&& final(self).translation(virt) == Some(phys)
                    &&& final(self).leaf(virt) == Some(
                        phys | word_flags(old(self).leaf(virt)->Some_0),
                    )
                    &&& word_flags(final(self).leaf(virt)->Some_0) == word_flags(
                        old(self).leaf(virt)->Some_0,
                    )
                    &&& forall|other: VirtAddr|
                        !same_page(other.0, virt.0) ==> #[trigger] final(self).translation(other)
                            == old(self).translation(other)
                },
                Err(e) => {
                    &&& e == MapError::NotMapped
                    &&& old(self).translation(virt) is None
                    &&& final(self).tables() == old(self).tables()
                },
            },
    {
        let i4 = p4_index(virt);
        let i3 = p3_index(virt);
        let i2 = p2_index(virt);
        let i1 = p1_index(virt);
        let s4 = self.root_slot();
        proof {
            lemma_slot_table(self.slots@, s4 as int);
        }
        let s3 = match self.descend(s4, i4) {
            Some(s) => s,
            None => {
                return Err(MapError::NotMapped);
            },
        };
        proof {
            lemma_slot_table(self.slots@, s3 as int);
        }
        let s2 = match self.descend(s3, i3) {
            Some(s) => s,
            None => {
                return Err(MapError::NotMapped);
            },
        };
        proof {
            lemma_slot_table(self.slots@, s2 as int);
        }
        let s1 = match self.descend(s2, i2) {
            Some(s) => s,
            None => {
                return Err(MapError::NotMapped);
            },
        };
        proof {
            lemma_path(self.slots@, self.root, virt.0, s4 as int, s3 as int, s2 as int, s1 as int);
        }
        let entry = self.slots[s1].table.entry(i1);
        if !entry.is_present() {
            return Err(MapError::NotMapped);
        }
        let flags = entry.flags();
        proof {
            lemma_entry_bits(phys, flags);
            lemma_word_bits(entry.0);
        }
        self.set_leaf(s1, i1, phys | flags);
        proof {
            assert(linked(self.slots@, s4 as int, i4 as int, s3 as int));
            assert(linked(self.slots@, s3 as int, i3 as int, s2 as int));
            assert(linked(self.slots@, s2 as int, i2 as int, s1 as int));
            lemma_path(self.slots@, self.root, virt.0, s4 as int, s3 as int, s2 as int, s1 as int);
            assert forall|other: VirtAddr| !same_page(other.0, virt.0) implies #[trigger]
                self.translation(other) == old(self).translation(other) by {
                lemma_leaf_keeps_others(
                    old(self).slots@,
                    self.slots@,
                    self.root,
                    virt.0,
                    other.0,
                    s4 as int,
                    s3 as int,
                    s2 as int,
                    s1 as int,
                );
            }
        }
        Ok(())
    }

    /// Takes over tables that exist already, with the root table at `root`
    /// and `allocator` to feed what is mapped from now on.
    ///
    /// Fails with `InvalidMemoryMap` where the allocator's memory map is not
    /// valid, and else with `InvalidTables` where the tables form no
    /// hierarchy that the allocator can feed.
    pub fn adopt(allocator: FrameAllocator, root: u64, tables: Vec<TableSlot>) -> (r: Result<
        AddressSpace,
        MapError,
    >)
        ensures
            match r {
                Ok(space) => {
                    &&& space.wf()
                    &&& allocator.map().valid()
                    &&& hierarchy(tables@, root, allocator)
                    &&& space.root_frame() == root
                    &&& space.frame_allocator() == allocator
                    &&& space.tables() == tables_of(tables@)
                },
                Err(e) => if !allocator.map().valid() {
                    e == MapError::InvalidMemoryMap
                } else {
                    e == MapError::InvalidTables && !hierarchy(tables@, root, allocator)
                },
            },
    {
        if !allocator.memory_map().is_valid() {
            return Err(MapError::InvalidMemoryMap);
        }
        let space = AddressSpace { slots: tables, allocator, root };
        if !space.shaped_and_apart() {
            return Err(MapError::InvalidTables);
        }
        if !space.linked_up() {
            return Err(MapError::InvalidTables);
        }
        match space.find(root) {
            Some(i) => if space.slots[i].level != 4 {
                proof {
                    if has_slot(space.slots@, root, 4) {
                        let j = choose|j: int|
                            0 <= j < space.slots@.len() && (#[trigger] space.slots@[j]).frame == root
                                && space.slots@[j].level == 4;
                        if j < i {
                            assert(space.slots@[j].frame != space.slots@[i as int].frame);
                        } else if i < j {
                            assert(space.slots@[i as int].frame != space.slots@[j].frame);
                        }
                    }
                }
                return Err(MapError::InvalidTables);
            },
            None => {
                proof {
                    if has_slot(space.slots@, root, 4) {
                        let j = choose|j: int|
                            0 <= j < space.slots@.len() && (#[trigger] space.slots@[j]).frame == root
                                && space.slots@[j].level == 4;
                        assert(has_frame(space.slots@, root));
                    }
                }
                return Err(MapError::InvalidTables);
            },
        }
        let mut i: usize = 0;
        while i < space.slots.len()
            invariant
                i <= space.slots@.len(),
                space.allocator.map().valid(),
                space.slots@ == tables@,
                space.allocator == allocator,
                space.root == root,
                forall|x: int, n: int|
                    0 <= x < i && space.allocator.cursor() <= n < space.allocator.usable_frames().len()
                        ==> (#[trigger] space.allocator.usable_frames()[n]) != (
                    #[trigger] space.slots@[x]).frame,
            decreases space.slots@.len() - i,
        {
            if space.allocator.will_allocate(space.slots[i].frame) {
                proof {
                    let frames = space.allocator.usable_frames();
                    let n = choose|n: int|
                        space.allocator.cursor() <= n < frames.len() && #[trigger] frames[n]
                            == space.slots@[i as int].frame;
                    assert(frames[n] == space.slots@[i as int].frame);
                    assert(!slots_reserved(space.slots@, frames, space.allocator.cursor() as int));
                }
                return Err(MapError::InvalidTables);
            }
            i = i + 1;
        }
        Ok(space)
    }

    fn shaped_and_apart(&self) -> (ok: bool)
        ensures
            ok == (slots_shaped(self.slots@) && slots_distinct(self.slots@)),
    {
        let mut i: usize = 0;
        while i < self.slots.len()
            invariant
                i <= self.slots@.len(),
                forall|x: int|
                    0 <= x < i ==> is_frame_addr((#[trigger] self.slots@[x]).frame) && 1
                        <= self.slots@[x].level <= 4,
                forall|x: int, y: int|
                    0 <= x < y < i ==> (#[trigger] self.slots@[x]).frame != (
                    #[trigger] self.slots@[y]).frame,
            decreases self.slots@.len() - i,
        {
            let frame = self.slots[i].frame;
            let level = self.slots[i].level;
            if frame % 4096 != 0 || frame >= 0x10_0000_0000_0000 || level < 1 || level > 4 {
                assert(!(is_frame_addr(self.slots@[i as int].frame) && 1 <= self.slots@[i as int].level <= 4));
                return false;
            }
            let mut j: usize = 0;
            while j < i
                invariant
                    j <= i < self.slots@.len(),
                    frame == self.slots@[i as int].frame,
                    forall|x: int| 0 <= x < j ==> (#[trigger] self.slots@[x]).frame != frame,
                decreases i - j,
            {
                if self.slots[j].frame == frame {
                    assert(self.slots@[j as int].frame == self.slots@[i as int].frame);
                    return false;
                }
                j = j + 1;
            }
            i = i + 1;
        }
        true
    }

    fn linked_up(&self) -> (ok: bool)
        requires
            slots_shaped(self.slots@),
            slots_distinct(self.slots@),
        ensures
            ok == (slots_layered(self.slots@) && slots_single_parent(self.slots@)),
    {
        let count = self.slots.len();
        let mut has_parent: Vec<bool> = Vec::new();
        let mut n: usize = 0;
        while n < count
            invariant
                n <= count,
                has_parent@.len() == n,
                forall|x: int| 0 <= x < n ==> !(#[trigger] has_parent@[x]),
            decreases count - n,
        {
            has_parent.push(false);
            n = n + 1;
        }
        let ghost slots = self.slots@;
        let ghost mut owner: Seq<Option<(int, int)>> = Seq::new(count as nat, |x: int| None);
        let mut i: usize = 0;
        while i < count
            invariant
                i <= count,
                count == slots.len(),
                slots == self.slots@,
                slots_shaped(slots),
                slots_distinct(slots),
                has_parent@.len() == count,
                owner.len() == count,
                parents_noted(slots, has_parent@, owner, i as int, 0),
            decreases count - i,
        {
            if self.slots[i].level > 1 {
                let mut k: usize = 0;
                while k < 512
                    invariant
                        k <= 512,
                        i < count,
                        count == slots.len(),
                        slots == self.slots@,
                        slots[i as int].level > 1,
                        slots_shaped(slots),
                        slots_distinct(slots),
                        has_parent@.len() == count,
                        owner.len() == count,
                        parents_noted(slots, has_parent@, owner, i as int, k as int),
                    decreases 512 - k,
                {
                    let entry = self.slots[i].table.entry(k);
                    if entry.is_present() {
                        let child = match self.find(entry.addr()) {
                            Some(child) => child,
                            None => {
                                assert(!has_slot(slots, word_addr(entry.0), slots[i as int].level - 1)) by {
                                    if has_slot(slots, word_addr(entry.0), slots[i as int].level - 1) {
                                        let j = choose|j: int|
                                            0 <= j < slots.len() && (#[trigger] slots[j]).frame == word_addr(
                                                entry.0,
                                            ) && slots[j].level == slots[i as int].level - 1;
                                        assert(has_frame(slots, word_addr(entry.0)));
                                    }
                                }
                                assert(slots[i as int].table.words()[k as int] == entry.0);
                                return false;
                            },
                        };
                        if self.slots[child].level != self.slots[i].level - 1 {
                            assert(!has_slot(slots, word_addr(entry.0), slots[i as int].level - 1)) by {
                                if has_slot(slots, word_addr(entry.0), slots[i as int].level - 1) {
                                    let j = choose|j: int|
                                        0 <= j < slots.len() && (#[trigger] slots[j]).frame == word_addr(
                                            entry.0,
                                        ) && slots[j].level == slots[i as int].level - 1;
                                    if j < child {
                                        assert(slots[j].frame != slots[child as int].frame);
                                    } else if child < j {
                                        assert(slots[child as int].frame != slots[j].frame);
                                    }
                                }
                            }
                            assert(slots[i as int].table.words()[k as int] == entry.0);
                            return false;
                        }
                        if has_parent[child] {
                            proof {
                                let (pi, pk) = owner[child as int]->Some_0;
                                assert(word_present(slots[pi].table.words()[pk]));
                                assert(word_present(slots[i as int].table.words()[k as int]));
                            }
                            return false;
                        }
                        has_parent[child] = true;
                        proof {
                            let before = owner;
                            owner = owner.update(child as int, Some((i as int, k as int)));
                            assert forall|x: int, y: int|
                                pointing(slots, x, y) && (x < i || (x == i && y < k + 1)) implies (
                            #[trigger] child_of(slots, x, y)) < slots.len() && owner[child_of(slots, x, y)]
                                == Some((x, y)) by {
                                if x == i && y == k {
                                    lemma_slot_table(slots, child as int);
                                } else {
                                    assert(before[child_of(slots, x, y)] == Some((x, y)));
                                }
                            }
                        }
                    }
                    k = k + 1;
                }
            }
            proof {
                assert forall|x: int, y: int|
                    pointing(slots, x, y) && (x < i + 1 || (x == i + 1 && y < 0)) implies (
                #[trigger] child_of(slots, x, y)) < slots.len() && owner[child_of(slots, x, y)] == Some(
                    (x, y),
                ) by {}
            }
            i = i + 1;
        }
        proof {
            assert forall|x: int, y: int|
                0 <= x < slots.len() && 0 <= y < 512 && slots[x].level > 1 && word_present(
                    #[trigger] slots[x].table.words()[y],
                ) implies has_slot(slots, word_addr(slots[x].table.words()[y]), slots[x].level - 1) by {
                assert(pointing(slots, x, y));
                let c = child_of(slots, x, y);
                assert(owner[c] == Some((x, y)));
            }
            assert forall|x: int, y: int, x2: int, y2: int|
                0 <= x < slots.len() && 0 <= x2 < slots.len() && 0 <= y < 512 && 0 <= y2 < 512
                    && slots[x].level > 1 && slots[x2].level > 1 && word_present(
                    #[trigger] slots[x].table.words()[y],
                ) && word_present(#[trigger] slots[x2].table.words()[y2]) && word_addr(
                    slots[x].table.words()[y],
                ) == word_addr(slots[x2].table.words()[y2]) implies x == x2 && y == y2 by {
                assert(pointing(slots, x, y) && pointing(slots, x2, y2));
                assert(owner[child_of(slots, x, y)] == Some((x, y)));
                assert(owner[child_of(slots, x2, y2)] == Some((x2, y2)));
            }
        }
        true
    }
}

/// Entry `k` of the table at place `i` is a present entry of a table above
/// the leaf level.
pub open spec fn pointing(slots: Seq<TableSlot>, i: int, k: int) -> bool {
    0 <= i < slots.len() && 0 <= k < 512 && slots[i].level > 1 && word_present(
        slots[i].table.words()[k],
    )
}

/// The place of the table that entry `k` of the table at place `i` points to.
pub open spec fn child_of(slots: Seq<TableSlot>, i: int, k: int) -> int {
    slot_of(slots, word_addr(slots[i].table.words()[k]))
}

/// What the check of the links between the tables has noted, up to entry
/// `cols` of the table at place `rows`: each present entry of a table above
/// the leaf level points to a table one level down, which is noted as the
/// child of that entry and of no other.
pub open spec fn parents_noted(
    slots: Seq<TableSlot>,
    has_parent: Seq<bool>,
    owner: Seq<Option<(int, int)>>,
    rows: int,
    cols: int,
) -> bool {
    &&& forall|x: int, y: int|
        pointing(slots, x, y) && (x < rows || (x == rows && y < cols)) ==> 0 <= (#[trigger] child_of(
            slots,
            x,
            y,
        )) < slots.len() && owner[child_of(slots, x, y)] == Some((x, y))
    &&& forall|j: int|
        0 <= j < slots.len() ==> (#[trigger] has_parent[j]) == (owner[j] is Some)
    &&& forall|j: int|
        0 <= j < slots.len() && (#[trigger] owner[j]) is Some ==> {
            let (x, y) = owner[j]->Some_0;
            &&& pointing(slots, x, y)
            &&& (x < rows || (x == rows && y < cols))
            &&& slots[j].frame == word_addr(slots[x].table.words()[y])
            &&& slots[j].level == slots[x].level - 1
        }
}

} // verus!
