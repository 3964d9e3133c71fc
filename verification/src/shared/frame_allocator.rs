//! The physical memory map and the frame allocator that walks it.

use vstd::prelude::*;

verus! {

/// Bytes in a frame.
pub const FRAME_SIZE: u64 = 4096;

/// Regions that a memory map can hold.
pub const MAX_MEMORY_MAP_SIZE: usize = 256;

/// Bytes that one region takes in the map handed to the kernel.
pub const MEMORY_REGION_BYTES: usize = 24;

/// Pages that the map handed to the kernel spans.
pub const MEMORY_MAP_PAGES: usize = 1 + (MEMORY_REGION_BYTES * MAX_MEMORY_MAP_SIZE) / 4096;

/// What a region of physical memory is used for.
#[derive(Debug, PartialEq, Eq, Structural, Copy, Clone)]
pub enum MemoryType {
    Free,
    Reserved,
    InUse,
    Acpi1_3,
    AcpiReclaim,
    Acpi1_4,
}

/// A run of `page_count` frames that starts at the physical address `addr`.
#[derive(Debug, PartialEq, Eq, Structural, Copy, Clone)]
pub struct MemoryRegion {
    pub ty: MemoryType,
    pub addr: u64,
    pub page_count: usize,
}

/// A fixed-capacity list of regions; the first `next_free_entry_idx` entries count.
#[derive(Clone, Copy)]
pub struct MemoryMap {
    pub entries: [MemoryRegion; 256],
    pub next_free_entry_idx: u64,
}

/// The region ends inside the 64-bit address space.
pub open spec fn region_fits(r: MemoryRegion) -> bool {
    r.addr + FRAME_SIZE * r.page_count <= u64::MAX
}

/// The first byte after the region.
pub open spec fn region_end(r: MemoryRegion) -> int {
    r.addr + FRAME_SIZE * r.page_count
}

/// `frame` is the start of one of the region's frames.
pub open spec fn region_holds(r: MemoryRegion, frame: u64) -> bool {
    r.addr <= frame < region_end(r) && (frame - r.addr) % (FRAME_SIZE as int) == 0
}

/// The frames of a region in rising order, if the region is free; none otherwise.
pub open spec fn region_frames(r: MemoryRegion) -> Seq<u64> {
    if r.ty == MemoryType::Free {
        Seq::new(r.page_count as nat, |k: int| (r.addr + FRAME_SIZE * k) as u64)
    } else {
        Seq::empty()
    }
}

/// The frames of the free regions of a list, region after region.
pub open spec fn frames_of(regions: Seq<MemoryRegion>) -> Seq<u64>
    decreases regions.len(),
{
    if regions.len() == 0 {
        Seq::empty()
    } else {
        frames_of(regions.drop_last()) + region_frames(regions.last())
    }
}

/// No two free regions of the list share a byte.
pub open spec fn free_regions_disjoint(regions: Seq<MemoryRegion>) -> bool {
    forall|i: int, j: int|
        0 <= i < j < regions.len() && regions[i].ty == MemoryType::Free && regions[j].ty
            == MemoryType::Free ==> regions_apart(#[trigger] regions[i], #[trigger] regions[j])
}

/// The region starts on a frame boundary and ends below 2^52, the reach of a
/// page-table entry.
pub open spec fn region_aligned(r: MemoryRegion) -> bool {
    r.addr % FRAME_SIZE == 0 && region_end(r) <= 0x10_0000_0000_0000
}

/// The two regions share no byte.
pub open spec fn regions_apart(a: MemoryRegion, b: MemoryRegion) -> bool {
    region_end(a) <= b.addr || region_end(b) <= a.addr
}

impl MemoryMap {
    /// The regions that count, in map order.
    pub open spec fn regions(&self) -> Seq<MemoryRegion> {
        self.entries@.take(self.next_free_entry_idx as int)
    }

    /// The count is within the capacity and every region that counts ends
    /// inside the address space.
    pub open spec fn wf(&self) -> bool {
        &&& self.next_free_entry_idx <= MAX_MEMORY_MAP_SIZE
        &&& forall|i: int|
            0 <= i < self.next_free_entry_idx ==> region_fits(#[trigger] self.entries@[i])
    }

    /// The map is well formed, and its free regions are frame-aligned, end
    /// below 2^52 and are pairwise disjoint.
    pub open spec fn valid(&self) -> bool {
        &&& self.wf()
        &&& forall|i: int|
            0 <= i < self.regions().len() && (#[trigger] self.regions()[i]).ty == MemoryType::Free
                ==> region_aligned(self.regions()[i])
        &&& free_regions_disjoint(self.regions())
    }

    /// A map without regions.
    pub fn new() -> (map: MemoryMap)
        ensures
            map.wf(),
            map.regions() == Seq::<MemoryRegion>::empty(),
    {
        let filler = MemoryRegion { ty: MemoryType::Reserved, addr: 0, page_count: 0 };
        let map = MemoryMap { entries: [filler;256], next_free_entry_idx: 0 };
        assert(map.regions() =~= Seq::<MemoryRegion>::empty());
        map
    }

    /// The number of regions that count.
    pub fn len(&self) -> (n: usize)
        requires
            self.wf(),
        ensures
            n == self.regions().len(),
    {
        self.next_free_entry_idx as usize
    }

    /// The region at `index`.
    pub fn region(&self, index: usize) -> (r: MemoryRegion)
        requires
            self.wf(),
            index < self.regions().len(),
        ensures
            r == self.regions()[index as int],
    {
        self.entries[index]
    }

    /// Tells whether the map is valid.
    pub fn is_valid(&self) -> (ok: bool)
        ensures
            ok == self.valid(),
    {
        if self.next_free_entry_idx > MAX_MEMORY_MAP_SIZE as u64 {
            return false;
        }
        let count = self.next_free_entry_idx as usize;
        let ghost regions = self.regions();
        let mut i: usize = 0;
        while i < count
            invariant
                count == self.next_free_entry_idx <= MAX_MEMORY_MAP_SIZE,
                regions == self.regions(),
                i <= count,
                forall|x: int| 0 <= x < i ==> region_fits(#[trigger] self.entries@[x]),
                forall|x: int|
                    0 <= x < i && (#[trigger] regions[x]).ty == MemoryType::Free
                        ==> region_aligned(regions[x]),
                forall|x: int, y: int|
                    0 <= x < y < i && regions[x].ty == MemoryType::Free && regions[y].ty
                        == MemoryType::Free ==> regions_apart(
                        #[trigger] regions[x],
                        #[trigger] regions[y],
                    ),
            decreases count - i,
        {
            let r = self.entries[i];
            assert(r == regions[i as int]);
            let end = match (r.page_count as u64).checked_mul(FRAME_SIZE) {
                Some(bytes) => r.addr.checked_add(bytes),
                None => None,
            };
            let end = match end {
                Some(end) => end,
                None => {
                    assert(!region_fits(self.entries@[i as int]));
                    return false;
                },
            };
            if r.ty == MemoryType::Free {
                if r.addr % FRAME_SIZE != 0 || end > 0x10_0000_0000_0000 {
                    assert(!region_aligned(regions[i as int]));
                    return false;
                }
                let mut j: usize = 0;
                while j < i
                    invariant
                        count == self.next_free_entry_idx <= MAX_MEMORY_MAP_SIZE,
                        regions == self.regions(),
                        i < count,
                        j <= i,
                        r == regions[i as int],
                        r.ty == MemoryType::Free,
                        end == region_end(r),
                        forall|x: int| 0 <= x < i ==> region_fits(#[trigger] self.entries@[x]),
                        forall|x: int|
                            0 <= x < j && (#[trigger] regions[x]).ty == MemoryType::Free
                                ==> regions_apart(regions[x], r),
                    decreases i - j,
                {
                    let q = self.entries[j];
                    assert(q == regions[j as int]);
                    assert(region_fits(self.entries@[j as int]));
                    if q.ty == MemoryType::Free {
                        let q_end = q.addr + FRAME_SIZE * (q.page_count as u64);
                        if !(q_end <= r.addr || end <= q.addr) {
                            assert(!regions_apart(regions[j as int], regions[i as int]));
                            return false;
                        }
                    }
                    j = j + 1;
                }
            }
            i = i + 1;
        }
        true
    }

    /// Appends a region. Returns `false`, and changes nothing, where the map is
    /// full or the region would end beyond the address space.
    pub fn push(&mut self, region: MemoryRegion) -> (added: bool)
        requires
            old(self).wf(),
        ensures
            final(self).wf(),
            added <==> old(self).regions().len() < MAX_MEMORY_MAP_SIZE && region_fits(region),
            added ==> final(self).regions() == old(self).regions().push(region),
            !added ==> *final(self) == *old(self),
    {
        let fits = match (region.page_count as u64).checked_mul(FRAME_SIZE) {
            Some(bytes) => region.addr.checked_add(bytes).is_some(),
            None => false,
        };
        if self.next_free_entry_idx >= MAX_MEMORY_MAP_SIZE as u64 || !fits {
            return false;
        }
        let index = self.next_free_entry_idx as usize;
        self.entries[index] = region;
        self.next_free_entry_idx = self.next_free_entry_idx + 1;
        assert(self.regions() =~= old(self).regions().push(region));
        true
    }
}

/// Hands out the frames of the free regions of a memory map, each once, in map
/// order. The `next`-th frame of that enumeration is the next one handed out.
pub struct FrameAllocator {
    memory_map: MemoryMap,
    pub next: usize,
    mapping_offset: u64,
}

impl FrameAllocator {
    /// The memory map the allocator walks.
    pub closed spec fn map(&self) -> MemoryMap {
        self.memory_map
    }

    /// The offset at which physical memory is visible to the owner.
    pub closed spec fn offset(&self) -> u64 {
        self.mapping_offset
    }

    /// The number of the next frame to hand out: the value of `next`.
    pub closed spec fn cursor(&self) -> usize {
        self.next
    }

    /// Every frame the allocator can ever hand out, in the order of handing out.
    pub open spec fn usable_frames(&self) -> Seq<u64> {
        frames_of(self.map().regions())
    }

    /// The frames handed out so far by an allocator that started at 0.
    pub open spec fn allocated(&self) -> Seq<u64> {
        if self.cursor() <= self.usable_frames().len() {
            self.usable_frames().take(self.cursor() as int)
        } else {
            self.usable_frames()
        }
    }

    /// An allocator over `memory_map` whose next frame is number `next_free_frame`.
    pub fn new(memory_map: MemoryMap, mapping_offset: u64, next_free_frame: usize) -> (fa: Self)
        ensures
            fa.map() == memory_map,
            fa.offset() == mapping_offset,
            fa.cursor() == next_free_frame,
    {
        FrameAllocator { memory_map, next: next_free_frame, mapping_offset }
    }

    /// The offset at which physical memory is visible to the owner.
    pub fn mapping_offset(&self) -> (offset: u64)
        ensures
            offset == self.offset(),
    {
        self.mapping_offset
    }

    /// The number of the next frame to hand out.
    pub fn next_frame_index(&self) -> (next: usize)
        ensures
            next == self.cursor(),
    {
        self.next
    }

    /// The memory map the allocator walks.
    pub fn memory_map(&self) -> (map: &MemoryMap)
        ensures
            *map == self.map(),
    {
        &self.memory_map
    }

    /// The frame with number `index` in the order of handing out, or `None`
    /// where the free regions hold no more than `index` frames.
    pub fn frame_at(&self, index: usize) -> (frame: Option<u64>)
        requires
            self.map().wf(),
        ensures
            frame == (if index < self.usable_frames().len() {
                Some(self.usable_frames()[index as int])
            } else {
                None
            }),
    {
        let ghost regions = self.memory_map.regions();
        let count = self.memory_map.next_free_entry_idx as usize;
        let mut remaining: usize = index;
        let mut i: usize = 0;
        proof {
            assert(regions.take(0) =~= Seq::<MemoryRegion>::empty());
        }
        while i < count
            invariant
                self.memory_map.wf(),
                regions == self.memory_map.regions(),
                count == regions.len(),
                i <= count,
                frames_of(regions.take(i as int)).len() + remaining == index,
            decreases count - i,
        {
            let r = self.memory_map.entries[i];
            proof {
                assert(r == regions[i as int]);
                assert(region_fits(r));
                assert(regions.take(i as int + 1).drop_last() =~= regions.take(i as int));
                assert(regions.take(i as int + 1).last() == r);
            }
            if r.ty == MemoryType::Free {
                if remaining < r.page_count {
                    proof {
                        lemma_frames_prefix(regions, i as int + 1);
                        assert(frames_of(regions.take(i as int + 1))[index as int] == region_frames(
                            r,
                        )[remaining as int]);
                        assert(FRAME_SIZE * remaining <= FRAME_SIZE * r.page_count)
                            by (nonlinear_arith)
                            requires
                                remaining < r.page_count,
                        ;
                    }
                    return Some(r.addr + FRAME_SIZE * (remaining as u64));
                }
                remaining = remaining - r.page_count;
            }
            i = i + 1;
        }
        proof {
            assert(regions.take(count as int) =~= regions);
        }
        None
    }

    /// Hands out the next frame, or `None` once every frame has been handed
    /// out. The cursor advances either way.
    pub fn allocate_frame(&mut self) -> (frame: Option<u64>)
        requires
            old(self).map().wf(),
            old(self).cursor() < usize::MAX,
        ensures
            final(self).map() == old(self).map(),
            final(self).offset() == old(self).offset(),
            final(self).cursor() == old(self).cursor() + 1,
            frame == (if old(self).cursor() < old(self).usable_frames().len() {
                Some(old(self).usable_frames()[old(self).cursor() as int])
            } else {
                None
            }),
    {
        let frame = self.frame_at(self.next);
        self.next = self.next + 1;
        frame
    }
}

/// The frames of a prefix of the list are a prefix of the frames of the list.
pub proof fn lemma_frames_prefix(regions: Seq<MemoryRegion>, n: int)
    requires
        0 <= n <= regions.len(),
    ensures
        frames_of(regions.take(n)).len() <= frames_of(regions).len(),
        frames_of(regions.take(n)) =~= frames_of(regions).take(
            frames_of(regions.take(n)).len() as int,
        ),
    decreases regions.len() - n,
{
    if n == regions.len() {
        assert(regions.take(n) =~= regions);
    } else {
        lemma_frames_prefix(regions, n + 1);
        assert(regions.take(n + 1).drop_last() =~= regions.take(n));
    }
}

/// The number of frames that the first `n` regions of the list give.
pub open spec fn frames_before(regions: Seq<MemoryRegion>, n: int) -> int {
    frames_of(regions.take(n)).len() as int
}

/// The number of frames of a prefix grows with the prefix.
pub proof fn lemma_frames_before_monotonic(regions: Seq<MemoryRegion>, a: int, b: int)
    requires
        0 <= a <= b <= regions.len(),
    ensures
        frames_before(regions, a) <= frames_before(regions, b),
    decreases b - a,
{
    if a < b {
        lemma_frames_before_monotonic(regions, a, b - 1);
        assert(regions.take(b).drop_last() =~= regions.take(b - 1));
    }
}

/// Every frame of the enumeration comes from one free region: the one whose
/// share of the enumeration holds the index. The lemma returns that region's
/// place in the list.
pub proof fn lemma_frame_origin(regions: Seq<MemoryRegion>, idx: int) -> (k: int)
    requires
        0 <= idx < frames_of(regions).len(),
        forall|i: int| 0 <= i < regions.len() ==> region_fits(#[trigger] regions[i]),
    ensures
        0 <= k < regions.len(),
        regions[k].ty == MemoryType::Free,
        frames_before(regions, k) <= idx < frames_before(regions, k + 1),
        frames_before(regions, k + 1) == frames_before(regions, k) + regions[k].page_count,
        frames_of(regions)[idx] == regions[k].addr + FRAME_SIZE * (idx - frames_before(regions, k)),
        region_holds(regions[k], frames_of(regions)[idx]),
    decreases regions.len(),
{
    let n = regions.len() as int;
    let front = regions.drop_last();
    let last = regions.last();
    assert(regions.take(n) =~= regions);
    assert(regions.take(n - 1) =~= front);
    if idx < frames_of(front).len() {
        let k = lemma_frame_origin(front, idx);
        assert(front.take(k) =~= regions.take(k));
        assert(front.take(k + 1) =~= regions.take(k + 1));
        k
    } else {
        let k = n - 1;
        let off = idx - frames_of(front).len();
        assert(region_frames(last).len() > 0);
        assert(frames_of(regions)[idx] == region_frames(last)[off]);
        assert(region_fits(regions[k]));
        assert(FRAME_SIZE * off < FRAME_SIZE * last.page_count) by (nonlinear_arith)
            requires
                0 <= off < last.page_count,
        ;
        assert((FRAME_SIZE * off) % (FRAME_SIZE as int) == 0) by (nonlinear_arith)
            requires
                0 <= off,
        ;
        k
    }
}

/// A frame of a free region of the list is in the enumeration.
pub proof fn lemma_region_frame_listed(regions: Seq<MemoryRegion>, k: int, frame: u64)
    requires
        0 <= k < regions.len(),
        regions[k].ty == MemoryType::Free,
        region_holds(regions[k], frame),
    ensures
        frames_of(regions).contains(frame),
    decreases regions.len(),
{
    let n = regions.len() as int;
    let front = regions.drop_last();
    let last = regions.last();
    if k == n - 1 {
        let off = (frame - last.addr) / (FRAME_SIZE as int);
        assert(off * FRAME_SIZE == frame - last.addr && 0 <= off < last.page_count)
            by (nonlinear_arith)
            requires
                off == (frame - last.addr) / (FRAME_SIZE as int),
                (frame - last.addr) % (FRAME_SIZE as int) == 0,
                0 <= frame - last.addr < FRAME_SIZE * last.page_count,
                FRAME_SIZE == 4096,
        ;
        assert(region_frames(last)[off] == frame);
        assert(frames_of(regions)[frames_of(front).len() + off] == frame);
    } else {
        lemma_region_frame_listed(front, k, frame);
        let i = choose|i: int| 0 <= i < frames_of(front).len() && frames_of(front)[i] == frame;
        assert(frames_of(regions)[i] == frame);
    }
}

/// Two different places of the enumeration hold different frames, where the
/// free regions of the map are disjoint. So two calls of `allocate_frame`,
/// successive or not, never return the same frame.
pub proof fn lemma_frames_distinct(map: MemoryMap, i: int, j: int)
    requires
        map.wf(),
        free_regions_disjoint(map.regions()),
        0 <= i < j < frames_of(map.regions()).len(),
    ensures
        frames_of(map.regions())[i] != frames_of(map.regions())[j],
{
    let regions = map.regions();
    assert forall|x: int| 0 <= x < regions.len() implies region_fits(#[trigger] regions[x]) by {
        assert(regions[x] == map.entries@[x]);
    }
    let ki = lemma_frame_origin(regions, i);
    let kj = lemma_frame_origin(regions, j);
    if ki > kj {
        lemma_frames_before_monotonic(regions, kj + 1, ki);
    }
    if ki < kj {
        assert(regions_apart(regions[ki], regions[kj]));
    } else {
        assert(ki == kj);
        assert(FRAME_SIZE * (i - frames_before(regions, ki)) != FRAME_SIZE * (j - frames_before(
            regions,
            ki,
        ))) by (nonlinear_arith)
            requires
                i != j,
                FRAME_SIZE == 4096,
        ;
    }
}

/// The enumeration holds exactly the frames of the free regions: once the
/// allocator is exhausted, the frames it has returned are the union of the
/// free regions, frame by frame.
pub proof fn lemma_frames_cover(map: MemoryMap, frame: u64)
    requires
        map.wf(),
    ensures
        frames_of(map.regions()).contains(frame) <==> exists|k: int|
            0 <= k < map.regions().len() && (#[trigger] map.regions()[k]).ty == MemoryType::Free
                && region_holds(map.regions()[k], frame),
{
    let regions = map.regions();
    assert forall|x: int| 0 <= x < regions.len() implies region_fits(#[trigger] regions[x]) by {
        assert(regions[x] == map.entries@[x]);
    }
    if frames_of(regions).contains(frame) {
        let i = choose|i: int| 0 <= i < frames_of(regions).len() && frames_of(regions)[i] == frame;
        let k = lemma_frame_origin(regions, i);
        assert(regions[k].ty == MemoryType::Free && region_holds(regions[k], frame));
    }
    if exists|k: int|
        0 <= k < regions.len() && (#[trigger] regions[k]).ty == MemoryType::Free && region_holds(
            regions[k],
            frame,
        ) {
        let k = choose|k: int|
            0 <= k < regions.len() && (#[trigger] regions[k]).ty == MemoryType::Free
                && region_holds(regions[k], frame);
        lemma_region_frame_listed(regions, k, frame);
    }
}

/// In a valid map every frame of the enumeration is frame-aligned and lies
/// below 2^52.
pub proof fn lemma_frames_aligned(map: MemoryMap, idx: int)
    requires
        map.valid(),
        0 <= idx < frames_of(map.regions()).len(),
    ensures
        frames_of(map.regions())[idx] % FRAME_SIZE == 0,
        frames_of(map.regions())[idx] < 0x10_0000_0000_0000,
{
    let regions = map.regions();
    assert forall|x: int| 0 <= x < regions.len() implies region_fits(#[trigger] regions[x]) by {
        assert(regions[x] == map.entries@[x]);
    }
    let k = lemma_frame_origin(regions, idx);
    assert(region_aligned(regions[k]));
}

/// The frame at the offset of `o` frames in the free region at place `k` of
/// the list stands in the enumeration at the place that the regions before
/// `k` leave, plus `o`.
pub proof fn lemma_frame_index(regions: Seq<MemoryRegion>, k: int, o: int)
    requires
        0 <= k < regions.len(),
        regions[k].ty == MemoryType::Free,
        0 <= o < regions[k].page_count,
    ensures
        0 <= frames_before(regions, k) + o < frames_of(regions).len(),
        frames_of(regions)[frames_before(regions, k) + o] == (regions[k].addr + FRAME_SIZE * o) as u64,
    decreases regions.len(),
{
    let n = regions.len() as int;
    let front = regions.drop_last();
    assert(regions.take(n - 1) =~= front);
    if k == n - 1 {
        assert(frames_of(regions)[frames_of(front).len() + o] == region_frames(regions.last())[o]);
    } else {
        lemma_frame_index(front, k, o);
        assert(front.take(k) =~= regions.take(k));
    }
}

impl FrameAllocator {
    /// Tells whether the allocator has yet to hand out the frame: whether
    /// the frame stands in the enumeration at the cursor or behind it.
    pub fn will_allocate(&self, frame: u64) -> (later: bool)
        requires
            self.map().valid(),
        ensures
            later == exists|n: int|
                self.cursor() <= n < self.usable_frames().len() && #[trigger] self.usable_frames()[n]
                    == frame,
    {
        let ghost regions = self.memory_map.regions();
        let ghost frames = frames_of(regions);
        let count = self.memory_map.next_free_entry_idx as usize;
        let mut before: u64 = 0;
        let mut i: usize = 0;
        proof {
            assert(regions.take(0) =~= Seq::<MemoryRegion>::empty());
            assert forall|x: int| 0 <= x < regions.len() implies region_fits(#[trigger] regions[x]) by {
                assert(regions[x] == self.memory_map.entries@[x]);
            }
        }
        while i < count
            invariant
                self.memory_map.valid(),
                regions == self.memory_map.regions(),
                frames == frames_of(regions),
                count == regions.len(),
                i <= count,
                before == frames_before(regions, i as int),
                before <= i * 0x100_0000_0000,
                forall|x: int| 0 <= x < regions.len() ==> region_fits(#[trigger] regions[x]),
                forall|x: int|
                    0 <= x < i && (#[trigger] regions[x]).ty == MemoryType::Free ==> !region_holds(
                        regions[x],
                        frame,
                    ),
            decreases count - i,
        {
            let r = self.memory_map.entries[i];
            proof {
                assert(r == regions[i as int]);
                assert(regions.take(i as int + 1).drop_last() =~= regions.take(i as int));
                assert(regions.take(i as int + 1).last() == r);
            }
            if r.ty == MemoryType::Free {
                assert(region_aligned(regions[i as int]));
                assert(r.page_count <= 0x100_0000_0000) by {
                    assert(FRAME_SIZE * r.page_count <= 0x10_0000_0000_0000);
                }
                if r.addr <= frame && frame - r.addr < FRAME_SIZE * (r.page_count as u64) && (frame
                    - r.addr) % FRAME_SIZE == 0 {
                    let offset = (frame - r.addr) / FRAME_SIZE;
                    let index = before + offset;
                    proof {
                        lemma_frame_index(regions, i as int, offset as int);
                        assert(frames == self.usable_frames());
                        assert(self.usable_frames()[index as int] == frame);
                        if index < self.next {
                            assert forall|n: int|
                                self.next <= n < frames.len() implies #[trigger] frames[n] != frame by {
                                lemma_frames_distinct(self.memory_map, index as int, n);
                            }
                        }
                    }
                    return index >= self.next as u64;
                }
                before = before + r.page_count as u64;
            }
            i = i + 1;
        }
        proof {
            assert(regions.take(count as int) =~= regions);
            lemma_frames_cover(self.memory_map, frame);
            assert(!frames.contains(frame));
            assert(frames == self.usable_frames());
        }
        false
    }
}

} // verus!
