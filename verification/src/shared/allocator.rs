//! The kernel heap: nine free lists of fixed-size blocks over a first-fit
//! heap of free regions.
//!
//! The allocator keeps the books: which addresses are free. It never touches
//! the memory behind them.

use vstd::prelude::*;

verus! {

/// The number of block sizes.
pub const BLOCK_CLASSES: usize = 9;

/// The largest block size.
pub const MAX_BLOCK_SIZE: usize = 2048;

/// The size of the blocks of free list `class`: 8, 16, 32, and so on up to 2048.
pub open spec fn block_size_of(class: int) -> int {
    if class == 0 {
        8
    } else if class == 1 {
        16
    } else if class == 2 {
        32
    } else if class == 3 {
        64
    } else if class == 4 {
        128
    } else if class == 5 {
        256
    } else if class == 6 {
        512
    } else if class == 7 {
        1024
    } else {
        2048
    }
}

/// The size of the blocks of free list `class`.
pub fn block_size(class: usize) -> (size: usize)
    requires
        class < BLOCK_CLASSES,
    ensures
        size == block_size_of(class as int),
{
    if class == 0 {
        8
    } else if class == 1 {
        16
    } else if class == 2 {
        32
    } else if class == 3 {
        64
    } else if class == 4 {
        128
    } else if class == 5 {
        256
    } else if class == 6 {
        512
    } else if class == 7 {
        1024
    } else {
        2048
    }
}

/// `n` is a power of two.
pub open spec fn is_power_of_two(n: int) -> bool
    decreases n,
{
    n == 1 || (n > 1 && n % 2 == 0 && is_power_of_two(n / 2))
}

/// `addr` rounded up to the next multiple of `align`.
pub open spec fn rounded_up(addr: int, align: int) -> int {
    if addr % align == 0 {
        addr
    } else {
        addr + (align - addr % align)
    }
}

/// Rounds `addr` up to the next multiple of `align`, where `align` is a
/// power of two: the bits below `align` are cleared in `addr + align - 1`.
pub fn align_up(addr: usize, align: usize) -> (aligned: usize)
    requires
        align >= 1,
        addr + align <= usize::MAX,
    ensures
        aligned == ((addr + align - 1) as usize) & !((align - 1) as usize),
{
    (addr + align - 1) & !(align - 1)
}

/// The rounded-up address is the least multiple of `align` from `addr` on.
pub proof fn lemma_rounded_up(addr: int, align: int)
    requires
        addr >= 0,
        align > 0,
    ensures
        rounded_up(addr, align) % align == 0,
        addr <= rounded_up(addr, align) < addr + align,
{
    let rem = addr % align;
    if rem != 0 {
        assert((addr + (align - rem)) % align == 0) by (nonlinear_arith)
            requires
                rem == addr % align,
                align > 0,
        ;
    }
}

/// How much memory is asked for, and on what boundary.
#[derive(Clone, Copy, PartialEq, Eq, Structural, Debug)]
pub struct Layout {
    pub size: usize,
    pub align: usize,
}

/// A run of free bytes.
#[derive(Clone, Copy, PartialEq, Eq, Structural, Debug)]
pub struct FreeRegion {
    pub start: usize,
    pub size: usize,
}

/// The region can give `size` bytes on a multiple of `align`.
pub open spec fn region_fits(r: FreeRegion, size: int, align: int) -> bool {
    rounded_up(r.start as int, align) + size <= r.start + r.size
}

/// The place of the first region from place `from` on that fits, or the
/// length of the list where none does.
pub open spec fn first_fit(regions: Seq<FreeRegion>, size: int, align: int, from: int) -> int
    decreases regions.len() - from,
{
    if from < 0 || from >= regions.len() {
        regions.len() as int
    } else if region_fits(regions[from], size, align) {
        from
    } else {
        first_fit(regions, size, align, from + 1)
    }
}

/// The free bytes of a list of regions.
pub open spec fn region_bytes(regions: Seq<FreeRegion>) -> int
    decreases regions.len(),
{
    if regions.len() == 0 {
        0
    } else {
        region_bytes(regions.drop_last()) + regions.last().size
    }
}

/// What is left of the region `r` in front of an allocation at `at`.
pub open spec fn front_rest(r: FreeRegion, at: int) -> FreeRegion {
    FreeRegion { start: r.start, size: (at - r.start) as usize }
}

/// What is left of the region `r` behind an allocation of `size` bytes at `at`.
pub open spec fn back_rest(r: FreeRegion, at: int, size: int) -> FreeRegion {
    FreeRegion { start: (at + size) as usize, size: (r.start + r.size - at - size) as usize }
}

/// The list of regions after `size` bytes on a multiple of `align` have been
/// cut from the region at place `i`: that region leaves the list, and what is
/// left of it in front of and behind the cut joins the end of the list.
pub open spec fn regions_after_cut(regions: Seq<FreeRegion>, i: int, size: int, align: int) -> Seq<
    FreeRegion,
> {
    let r = regions[i];
    let at = rounded_up(r.start as int, align);
    let rest = regions.remove(i);
    let with_front = if at > r.start {
        rest.push(front_rest(r, at))
    } else {
        rest
    };
    if at + size < r.start + r.size {
        with_front.push(back_rest(r, at, size))
    } else {
        with_front
    }
}

/// Every region ends inside the machine's address range.
pub open spec fn regions_wf(regions: Seq<FreeRegion>) -> bool {
    forall|i: int| 0 <= i < regions.len() ==> (#[trigger] regions[i]).start + regions[i].size <= usize::MAX
}

/// The free bytes of a list shrink by the size of a region that leaves it.
pub proof fn lemma_region_bytes_remove(regions: Seq<FreeRegion>, i: int)
    requires
        0 <= i < regions.len(),
    ensures
        region_bytes(regions.remove(i)) == region_bytes(regions) - regions[i].size,
    decreases regions.len(),
{
    if i == regions.len() - 1 {
        assert(regions.remove(i) =~= regions.drop_last());
    } else {
        lemma_region_bytes_remove(regions.drop_last(), i);
        assert(regions.remove(i).drop_last() =~= regions.drop_last().remove(i));
        assert(regions.remove(i).last() == regions.last());
    }
}

/// The free bytes of a list grow by the size of a region that joins it.
pub proof fn lemma_region_bytes_push(regions: Seq<FreeRegion>, r: FreeRegion)
    ensures
        region_bytes(regions.push(r)) == region_bytes(regions) + r.size,
{
    assert(regions.push(r).drop_last() =~= regions);
}

/// A cut takes exactly `size` bytes from the free bytes.
pub proof fn lemma_cut_bytes(regions: Seq<FreeRegion>, i: int, size: int, align: int)
    requires
        0 <= i < regions.len(),
        size >= 0,
        align > 0,
        regions_wf(regions),
        region_fits(regions[i], size, align),
    ensures
        region_bytes(regions_after_cut(regions, i, size, align)) == region_bytes(regions) - size,
        regions_wf(regions_after_cut(regions, i, size, align)),
{
    let r = regions[i];
    let at = rounded_up(r.start as int, align);
    lemma_rounded_up(r.start as int, align);
    let rest = regions.remove(i);
    lemma_region_bytes_remove(regions, i);
    let with_front = if at > r.start {
        rest.push(front_rest(r, at))
    } else {
        rest
    };
    if at > r.start {
        lemma_region_bytes_push(rest, front_rest(r, at));
    }
    if at + size < r.start + r.size {
        lemma_region_bytes_push(with_front, back_rest(r, at, size));
    }
    assert forall|k: int| 0 <= k < rest.len() implies (#[trigger] rest[k]).start + rest[k].size
        <= usize::MAX by {
        if k < i {
            assert(rest[k] == regions[k]);
        } else {
            assert(rest[k] == regions[k + 1]);
        }
    }
}

/// The first-fit heap of free regions.
pub struct LinkedListHeap {
    pub regions: Vec<FreeRegion>,
}

impl LinkedListHeap {
    /// The free regions, in list order.
    pub open spec fn view(&self) -> Seq<FreeRegion> {
        self.regions@
    }

    /// Every region ends inside the machine's address range.
    pub open spec fn wf(&self) -> bool {
        regions_wf(self@)
    }

    /// A heap without memory.
    pub fn new() -> (heap: LinkedListHeap)
        ensures
            heap@ == Seq::<FreeRegion>::empty(),
            heap.wf(),
    {
        LinkedListHeap { regions: Vec::new() }
    }

    /// Takes `size` bytes on a multiple of `align` from the first region that
    /// can give them, or returns `None` where none can.
    pub fn allocate(&mut self, size: usize, align: usize) -> (r: Option<usize>)
        requires
            old(self).wf(),
            align > 0,
        ensures
            final(self).wf(),
            match r {
                Some(at) => {
                    let i = first_fit(old(self)@, size as int, align as int, 0);
                    &&& i < old(self)@.len()
                    &&& at == rounded_up(old(self)@[i].start as int, align as int)
                    &&& at % align == 0
                    &&& old(self)@[i].start <= at
                    &&& at + size <= old(self)@[i].start + old(self)@[i].size
                    &&& final(self)@ == regions_after_cut(old(self)@, i, size as int, align as int)
                    &&& region_bytes(final(self)@) == region_bytes(old(self)@) - size
                },
                None => first_fit(old(self)@, size as int, align as int, 0) == old(self)@.len()
                    && final(self)@ == old(self)@,
            },
    {
        let mut i: usize = 0;
        while i < self.regions.len()
            invariant
                self.regions@ == old(self).regions@,
                self.wf(),
                align > 0,
                i <= self.regions@.len(),
                first_fit(self@, size as int, align as int, 0) == first_fit(
                    self@,
                    size as int,
                    align as int,
                    i as int,
                ),
            decreases self.regions@.len() - i,
        {
            let r = self.regions[i];
            proof {
                lemma_rounded_up(r.start as int, align as int);
            }
            let rem = r.start % align;
            let pad = if rem == 0 {
                0
            } else {
                align - rem
            };
            // the region fits where the padding and the size together fit its size
            if pad <= r.size && size <= r.size - pad {
                let at = r.start + pad;
                proof {
                    lemma_cut_bytes(self@, i as int, size as int, align as int);
                }
                self.regions.remove(i);
                if pad > 0 {
                    self.regions.push(FreeRegion { start: r.start, size: pad });
                }
                if size < r.size - pad {
                    self.regions.push(
                        FreeRegion { start: at + size, size: r.size - pad - size },
                    );
                }
                return Some(at);
            }
            i = i + 1;
        }
        None
    }

    /// Gives the `size` bytes at `ptr` back: they join the list as a region
    /// of their own.
    pub fn deallocate(&mut self, ptr: usize, size: usize)
        requires
            old(self).wf(),
            ptr + size <= usize::MAX,
        ensures
            final(self).wf(),
            final(self)@ == old(self)@.push(FreeRegion { start: ptr, size }),
            region_bytes(final(self)@) == region_bytes(old(self)@) + size,
    {
        proof {
            lemma_region_bytes_push(self@, FreeRegion { start: ptr, size });
        }
        self.regions.push(FreeRegion { start: ptr, size });
    }
}

impl Layout {
    /// The alignment is a power of two.
    pub open spec fn valid(&self) -> bool {
        is_power_of_two(self.align as int)
    }

    /// A layout of `size` bytes on a multiple of `align`, or `None` where
    /// `align` is no power of two.
    pub fn from_size_align(size: usize, align: usize) -> (r: Option<Layout>)
        ensures
            r is Some <==> is_power_of_two(align as int),
            r is Some ==> r->Some_0 == (Layout { size, align }),
    {
        let layout = Layout { size, align };
        if layout.is_valid() {
            Some(layout)
        } else {
            None
        }
    }

    /// Tells whether the alignment is a power of two.
    pub fn is_valid(&self) -> (ok: bool)
        ensures
            ok == self.valid(),
    {
        let mut rest = self.align;
        if rest == 0 {
            return false;
        }
        while rest > 1 && rest % 2 == 0
            invariant
                rest >= 1,
                is_power_of_two(self.align as int) == is_power_of_two(rest as int),
            decreases rest,
        {
            rest = rest / 2;
        }
        rest == 1
    }
}

/// The free list that serves the layout: the first whose blocks are at least
/// as large as the layout's size and alignment. `None` where even the largest
/// block is too small.
pub open spec fn class_of(layout: Layout) -> Option<int> {
    let required = if layout.size >= layout.align {
        layout.size as int
    } else {
        layout.align as int
    };
    if required <= 8 {
        Some(0)
    } else if required <= 16 {
        Some(1)
    } else if required <= 32 {
        Some(2)
    } else if required <= 64 {
        Some(3)
    } else if required <= 128 {
        Some(4)
    } else if required <= 256 {
        Some(5)
    } else if required <= 512 {
        Some(6)
    } else if required <= 1024 {
        Some(7)
    } else if required <= 2048 {
        Some(8)
    } else {
        None
    }
}

/// The number of bytes that an allocation of the layout takes from the free
/// memory: the block size where a free list serves it, its size otherwise.
pub open spec fn charged(layout: Layout) -> int {
    match class_of(layout) {
        Some(class) => block_size_of(class),
        None => layout.size as int,
    }
}

/// The free list that serves the layout.
pub fn list_index(layout: &Layout) -> (class: Option<usize>)
    ensures
        class is Some <==> class_of(*layout) is Some,
        class is Some ==> class->Some_0 == class_of(*layout)->Some_0 && class->Some_0 < BLOCK_CLASSES,
{
    let required = if layout.size >= layout.align {
        layout.size
    } else {
        layout.align
    };
    if required <= 8 {
        Some(0)
    } else if required <= 16 {
        Some(1)
    } else if required <= 32 {
        Some(2)
    } else if required <= 64 {
        Some(3)
    } else if required <= 128 {
        Some(4)
    } else if required <= 256 {
        Some(5)
    } else if required <= 512 {
        Some(6)
    } else if required <= 1024 {
        Some(7)
    } else if required <= 2048 {
        Some(8)
    } else {
        None
    }
}

/// What the heap holds: the blocks of the nine free lists and the regions
/// of the first-fit heap.
pub struct HeapState {
    pub lists: Seq<Seq<usize>>,
    pub regions: Seq<FreeRegion>,
}

/// The bytes in the blocks of the free lists below `upto`.
pub open spec fn list_bytes(lists: Seq<Seq<usize>>, upto: int) -> int
    decreases upto,
{
    if upto <= 0 {
        0
    } else {
        list_bytes(lists, upto - 1) + block_size_of(upto - 1) * lists[upto - 1].len()
    }
}

/// The free bytes of the heap: the blocks of the free lists and the regions
/// of the first-fit heap together.
pub open spec fn free_bytes(state: HeapState) -> int {
    list_bytes(state.lists, BLOCK_CLASSES as int) + region_bytes(state.regions)
}

/// There are nine free lists; the blocks of each lie on multiples of its
/// block size and end inside the machine's address range, as the regions do.
pub open spec fn state_wf(state: HeapState) -> bool {
    &&& state.lists.len() == BLOCK_CLASSES
    &&& regions_wf(state.regions)
    &&& forall|i: int, k: int|
        0 <= i < BLOCK_CLASSES && 0 <= k < state.lists[i].len() ==> (#[trigger] state.lists[i][k])
            % (block_size_of(i) as usize) == 0 && state.lists[i][k] + block_size_of(i) <= usize::MAX
}

/// What an allocation returns and leaves. A free list that serves the layout
/// gives its last block; where it is empty, a block of its size is cut from
/// the first-fit heap, on a multiple of its size. A layout that no free list
/// serves is cut from the first-fit heap as it is.
pub open spec fn heap_after_alloc(state: HeapState, layout: Layout) -> (Option<usize>, HeapState) {
    match class_of(layout) {
        Some(class) => if state.lists[class].len() > 0 {
            (
                Some(state.lists[class].last()),
                HeapState {
                    lists: state.lists.update(class, state.lists[class].drop_last()),
                    regions: state.regions,
                },
            )
        } else {
            cut_from_regions(state, block_size_of(class), block_size_of(class))
        },
        None => cut_from_regions(state, layout.size as int, layout.align as int),
    }
}

/// What a first-fit cut of `size` bytes on a multiple of `align` returns and
/// leaves.
pub open spec fn cut_from_regions(state: HeapState, size: int, align: int) -> (Option<usize>, HeapState) {
    let i = first_fit(state.regions, size, align, 0);
    if i < state.regions.len() {
        (
            Some(rounded_up(state.regions[i].start as int, align) as usize),
            HeapState { lists: state.lists, regions: regions_after_cut(state.regions, i, size, align) },
        )
    } else {
        (None, state)
    }
}

/// What a deallocation leaves: the block joins the end of the free list that
/// serves the layout, or the first-fit heap where none does.
pub open spec fn heap_after_dealloc(state: HeapState, ptr: usize, layout: Layout) -> HeapState {
    match class_of(layout) {
        Some(class) => HeapState {
            lists: state.lists.update(class, state.lists[class].push(ptr)),
            regions: state.regions,
        },
        None => HeapState {
            lists: state.lists,
            regions: state.regions.push(FreeRegion { start: ptr, size: layout.size }),
        },
    }
}

/// Replacing one free list changes the bytes of the lists by the difference
/// in blocks, times the block size.
pub proof fn lemma_list_bytes_update(lists: Seq<Seq<usize>>, class: int, list: Seq<usize>, upto: int)
    requires
        0 <= class < lists.len(),
        0 <= upto <= lists.len(),
    ensures
        list_bytes(lists.update(class, list), upto) == list_bytes(lists, upto) + (if class < upto {
            block_size_of(class) * (list.len() - lists[class].len())
        } else {
            0
        }),
    decreases upto,
{
    if upto > 0 {
        lemma_list_bytes_update(lists, class, list, upto - 1);
        if class == upto - 1 {
            assert(block_size_of(class) * list.len() == block_size_of(class) * lists[class].len()
                + block_size_of(class) * (list.len() - lists[class].len())) by (nonlinear_arith);
        }
    }
}

/// The first place that fits is a place that fits, and no place before it does.
pub proof fn lemma_first_fit(regions: Seq<FreeRegion>, size: int, align: int, from: int)
    requires
        0 <= from <= regions.len(),
    ensures
        from <= first_fit(regions, size, align, from) <= regions.len(),
        first_fit(regions, size, align, from) < regions.len() ==> region_fits(
            regions[first_fit(regions, size, align, from)],
            size,
            align,
        ),
    decreases regions.len() - from,
{
    if from < regions.len() && !region_fits(regions[from], size, align) {
        lemma_first_fit(regions, size, align, from + 1);
    }
}

/// An allocation takes from the free bytes what the layout is charged, and a
/// failed one takes nothing.
pub proof fn lemma_alloc_bytes(state: HeapState, layout: Layout)
    requires
        state_wf(state),
        layout.align > 0,
    ensures
        heap_after_alloc(state, layout).0 is Some ==> free_bytes(heap_after_alloc(state, layout).1)
            == free_bytes(state) - charged(layout),
        heap_after_alloc(state, layout).0 is None ==> heap_after_alloc(state, layout).1 == state,
{
    let (size, align) = match class_of(layout) {
        Some(class) => (block_size_of(class), block_size_of(class)),
        None => (layout.size as int, layout.align as int),
    };
    match class_of(layout) {
        Some(class) => {
            if state.lists[class].len() > 0 {
                lemma_list_bytes_update(
                    state.lists,
                    class,
                    state.lists[class].drop_last(),
                    BLOCK_CLASSES as int,
                );
                assert(block_size_of(class) * (state.lists[class].drop_last().len()
                    - state.lists[class].len()) == -block_size_of(class)) by (nonlinear_arith)
                    requires
                        state.lists[class].drop_last().len() - state.lists[class].len() == -1,
                ;
                return ;
            }
        },
        None => {},
    }
    lemma_first_fit(state.regions, size, align, 0);
    let i = first_fit(state.regions, size, align, 0);
    if i < state.regions.len() {
        lemma_cut_bytes(state.regions, i, size, align);
    }
}

/// A deallocation gives the free bytes what the layout was charged.
pub proof fn lemma_dealloc_bytes(state: HeapState, ptr: usize, layout: Layout)
    requires
        state.lists.len() == BLOCK_CLASSES,
    ensures
        free_bytes(heap_after_dealloc(state, ptr, layout)) == free_bytes(state) + charged(layout),
{
    match class_of(layout) {
        Some(class) => {
            lemma_list_bytes_update(
                state.lists,
                class,
                state.lists[class].push(ptr),
                BLOCK_CLASSES as int,
            );
            assert(block_size_of(class) * (state.lists[class].push(ptr).len()
                - state.lists[class].len()) == block_size_of(class)) by (nonlinear_arith)
                requires
                    state.lists[class].push(ptr).len() - state.lists[class].len() == 1,
            ;
        },
        None => {
            lemma_region_bytes_push(state.regions, FreeRegion { start: ptr, size: layout.size });
        },
    }
}

/// The heap law: an allocation followed by the deallocation of what it
/// returned leaves as many free bytes as there were.
pub proof fn lemma_alloc_dealloc_conserves(state: HeapState, layout: Layout)
    requires
        state_wf(state),
        layout.align > 0,
        heap_after_alloc(state, layout).0 is Some,
    ensures
        free_bytes(
            heap_after_dealloc(
                heap_after_alloc(state, layout).1,
                heap_after_alloc(state, layout).0->Some_0,
                layout,
            ),
        ) == free_bytes(state),
{
    lemma_alloc_bytes(state, layout);
    let after = heap_after_alloc(state, layout).1;
    assert(after.lists.len() == BLOCK_CLASSES);
    lemma_dealloc_bytes(after, heap_after_alloc(state, layout).0->Some_0, layout);
}

/// The heap after `n` rounds of an allocation of `layout` followed by the
/// deallocation of what it returned. A round whose allocation fails leaves
/// the heap as it was.
pub open spec fn heap_after_rounds(state: HeapState, layout: Layout, n: nat) -> HeapState
    decreases n,
{
    if n == 0 {
        state
    } else {
        let before = heap_after_rounds(state, layout, (n - 1) as nat);
        match heap_after_alloc(before, layout).0 {
            Some(ptr) => heap_after_dealloc(heap_after_alloc(before, layout).1, ptr, layout),
            None => before,
        }
    }
}

/// A block that is given back comes back: where a free list serves the
/// layout, an allocation right after the deallocation of a block returns
/// that block and leaves the heap as it was before the deallocation.
pub proof fn lemma_block_comes_back(state: HeapState, ptr: usize, layout: Layout)
    requires
        state.lists.len() == BLOCK_CLASSES,
        class_of(layout) is Some,
    ensures
        heap_after_alloc(heap_after_dealloc(state, ptr, layout), layout) == (Some(ptr), state),
{
    let class = class_of(layout)->Some_0;
    let given = heap_after_dealloc(state, ptr, layout);
    assert(given.lists[class] == state.lists[class].push(ptr));
    assert(given.lists[class].drop_last() =~= state.lists[class]);
    assert(given.lists.update(class, given.lists[class].drop_last()) =~= state.lists);
}

/// The heap law of runs: where a free list serves the layout and one
/// allocation succeeds, every allocation of a run of allocations, each
/// followed by the deallocation of what it returned, succeeds, and from the
/// second on each returns the block that the first returned. So a run of any
/// length of small allocations, each dropped before the next, never
/// exhausts the heap, whatever else is kept allocated beside it.
pub proof fn lemma_rounds_succeed(state: HeapState, layout: Layout, n: nat)
    requires
        state_wf(state),
        class_of(layout) is Some,
        heap_after_alloc(state, layout).0 is Some,
    ensures
        heap_after_alloc(heap_after_rounds(state, layout, n), layout).0 is Some,
        heap_after_rounds(state, layout, n).lists.len() == BLOCK_CLASSES,
        n >= 1 ==> heap_after_alloc(heap_after_rounds(state, layout, n), layout) == (
            heap_after_alloc(state, layout).0,
            heap_after_alloc(state, layout).1,
        ),
        n >= 1 ==> heap_after_rounds(state, layout, n) == heap_after_rounds(state, layout, 1),
    decreases n,
{
    reveal_with_fuel(heap_after_rounds, 2);
    if n >= 1 {
        lemma_rounds_succeed(state, layout, (n - 1) as nat);
        let before = heap_after_rounds(state, layout, (n - 1) as nat);
        let ptr = heap_after_alloc(before, layout).0->Some_0;
        let taken = heap_after_alloc(before, layout).1;
        assert(taken.lists.len() == BLOCK_CLASSES);
        lemma_block_comes_back(taken, ptr, layout);
        if n >= 2 {
            assert(heap_after_alloc(before, layout) == heap_after_alloc(state, layout));
        }
    }
}

/// The kernel heap: nine free lists of blocks of fixed sizes, and a first-fit
/// heap of free regions behind them.
pub struct FixedSizeBlockAllocator {
    list_heads: Vec<Vec<usize>>,
    fallback_allocator: LinkedListHeap,
}

impl FixedSizeBlockAllocator {
    /// What the heap holds.
    pub closed spec fn view(&self) -> HeapState {
        HeapState {
            lists: Seq::new(self.list_heads@.len(), |i: int| self.list_heads@[i]@),
            regions: self.fallback_allocator@,
        }
    }

    /// The invariant of the heap: see `state_wf`.
    pub open spec fn wf(&self) -> bool {
        state_wf(self@)
    }

    /// A heap without memory.
    pub fn new() -> (heap: FixedSizeBlockAllocator)
        ensures
            heap.wf(),
            heap@.regions == Seq::<FreeRegion>::empty(),
            forall|i: int| 0 <= i < BLOCK_CLASSES ==> #[trigger] heap@.lists[i] == Seq::<usize>::empty(),
            free_bytes(heap@) == 0,
    {
        let mut list_heads: Vec<Vec<usize>> = Vec::new();
        let mut i: usize = 0;
        while i < BLOCK_CLASSES
            invariant
                i <= BLOCK_CLASSES,
                list_heads@.len() == i,
                forall|k: int| 0 <= k < i ==> (#[trigger] list_heads@[k])@ == Seq::<usize>::empty(),
            decreases BLOCK_CLASSES - i,
        {
            list_heads.push(Vec::new());
            i = i + 1;
        }
        let heap = FixedSizeBlockAllocator { list_heads, fallback_allocator: LinkedListHeap::new() };
        proof {
            assert(region_bytes(heap@.regions) == 0);
            reveal_with_fuel(list_bytes, 10);
            assert(list_bytes(heap@.lists, 9) == 0);
        }
        heap
    }

    /// Gives the heap the `heap_size` bytes from `heap_start` on.
    pub fn init(&mut self, heap_start: usize, heap_size: usize)
        requires
            old(self).wf(),
            heap_start + heap_size <= usize::MAX,
        ensures
            final(self).wf(),
            final(self)@.lists == old(self)@.lists,
            final(self)@.regions == old(self)@.regions.push(
                FreeRegion { start: heap_start, size: heap_size },
            ),
            free_bytes(final(self)@) == free_bytes(old(self)@) + heap_size,
    {
        proof {
            lemma_region_bytes_push(self@.regions, FreeRegion { start: heap_start, size: heap_size });
        }
        self.fallback_allocator.deallocate(heap_start, heap_size);
        assert(self@.lists =~= old(self)@.lists);
    }

    /// The number of free bytes.
    pub fn free(&self) -> (bytes: usize)
        requires
            self.wf(),
            free_bytes(self@) <= usize::MAX,
        ensures
            bytes == free_bytes(self@),
    {
        let mut bytes: usize = 0;
        let mut i: usize = 0;
        let ghost state = self@;
        proof {
            lemma_bytes_nonnegative(state);
        }
        while i < BLOCK_CLASSES
            invariant
                i <= BLOCK_CLASSES,
                state == self@,
                state_wf(state),
                free_bytes(state) <= usize::MAX,
                region_bytes(state.regions) >= 0,
                forall|u: int| 0 <= u <= BLOCK_CLASSES ==> 0 <= #[trigger] list_bytes(state.lists, u)
                    <= list_bytes(state.lists, BLOCK_CLASSES as int),
                bytes == list_bytes(state.lists, i as int),
            decreases BLOCK_CLASSES - i,
        {
            let count = self.list_heads[i].len();
            assert(count == state.lists[i as int].len());
            assert(list_bytes(state.lists, i + 1) == bytes + block_size_of(i as int) * count);
            assert(0 <= list_bytes(state.lists, i + 1) <= usize::MAX);
            assert(block_size_of(i as int) * count <= usize::MAX);
            bytes = bytes + block_size(i) * count;
            i = i + 1;
        }
        let ghost listed = bytes as int;
        let mut k: usize = 0;
        proof {
            assert(state.regions.take(0) =~= Seq::<FreeRegion>::empty());
        }
        while k < self.fallback_allocator.regions.len()
            invariant
                k <= state.regions.len(),
                state == self@,
                state.regions == self.fallback_allocator.regions@,
                listed == list_bytes(state.lists, BLOCK_CLASSES as int),
                free_bytes(state) <= usize::MAX,
                bytes == listed + region_bytes(state.regions.take(k as int)),
                forall|u: int| 0 <= u <= state.regions.len() ==> 0 <= #[trigger] region_bytes(
                    state.regions.take(u),
                ) <= region_bytes(state.regions),
            decreases state.regions.len() - k,
        {
            assert(state.regions.take(k + 1).drop_last() =~= state.regions.take(k as int));
            assert(region_bytes(state.regions.take(k + 1)) <= region_bytes(state.regions));
            bytes = bytes + self.fallback_allocator.regions[k].size;
            k = k + 1;
        }
        assert(state.regions.take(k as int) =~= state.regions);
        bytes
    }

    /// Allocates memory for the layout. `None` means that the heap cannot
    /// serve it.
    pub fn allocate(&mut self, layout: Layout) -> (r: Option<usize>)
        requires
            old(self).wf(),
            layout.valid(),
        ensures
            final(self).wf(),
            (r, final(self)@) == heap_after_alloc(old(self)@, layout),
            r is Some ==> r->Some_0 % layout.align == 0,
            r is Some ==> free_bytes(final(self)@) == free_bytes(old(self)@) - charged(layout),
            r is None ==> final(self)@ == old(self)@,
    {
        proof {
            lemma_alloc_bytes(self@, layout);
            lemma_power_divides(layout.align as int);
        }
        let ghost before = self@;
        match list_index(&layout) {
            Some(class) => {
                let size = block_size(class);
                match self.list_heads[class].pop() {
                    Some(block) => {
                        proof {
                            assert(self@.lists =~= before.lists.update(
                                class as int,
                                before.lists[class as int].drop_last(),
                            ));
                            assert(block == before.lists[class as int][before.lists[class as int].len() - 1]);
                            lemma_divides(block as int, size as int, layout.align as int);
                        }
                        Some(block)
                    },
                    None => {
                        assert(self@.lists =~= before.lists);
                        let r = self.fallback_allocator.allocate(size, size);
                        proof {
                            assert(self@.lists =~= before.lists);
                            lemma_first_fit(before.regions, size as int, size as int, 0);
                            if r is Some {
                                lemma_divides(r->Some_0 as int, size as int, layout.align as int);
                            }
                        }
                        r
                    },
                }
            },
            None => {
                let r = self.fallback_allocator.allocate(layout.size, layout.align);
                proof {
                    assert(self@.lists =~= before.lists);
                    lemma_first_fit(before.regions, layout.size as int, layout.align as int, 0);
                }
                r
            },
        }
    }

    /// Tells whether `deallocate` can take the memory at `ptr` back for the
    /// layout: the block ends inside the machine's address range and, where
    /// a free list serves the layout, lies on a multiple of its block size.
    pub fn can_deallocate(ptr: usize, layout: &Layout) -> (ok: bool)
        ensures
            ok == (ptr + charged(*layout) <= usize::MAX && (class_of(*layout) is Some ==> ptr % (charged(
                *layout,
            ) as usize) == 0)),
    {
        match list_index(layout) {
            Some(class) => {
                let size = block_size(class);
                ptr <= usize::MAX - size && ptr % size == 0
            },
            None => ptr <= usize::MAX - layout.size,
        }
    }

    /// Takes back the memory at `ptr` that was allocated for the layout.
    pub fn deallocate(&mut self, ptr: usize, layout: Layout)
        requires
            old(self).wf(),
            ptr + charged(layout) <= usize::MAX,
            class_of(layout) is Some ==> ptr % (charged(layout) as usize) == 0,
        ensures
            final(self).wf(),
            final(self)@ == heap_after_dealloc(old(self)@, ptr, layout),
            free_bytes(final(self)@) == free_bytes(old(self)@) + charged(layout),
    {
        proof {
            lemma_dealloc_bytes(self@, ptr, layout);
        }
        let ghost before = self@;
        match list_index(&layout) {
            Some(class) => {
                self.list_heads[class].push(ptr);
                proof {
                    assert(self@.lists =~= before.lists.update(
                        class as int,
                        before.lists[class as int].push(ptr),
                    ));
                    assert forall|i: int, k: int|
                        0 <= i < BLOCK_CLASSES && 0 <= k < self@.lists[i].len() implies (
                    #[trigger] self@.lists[i][k]) % (block_size_of(i) as usize) == 0
                        && self@.lists[i][k] + block_size_of(i) <= usize::MAX by {
                        if i == class && k == before.lists[i].len() {
                        } else {
                            assert(self@.lists[i][k] == before.lists[i][k]);
                        }
                    }
                }
            },
            None => {
                self.fallback_allocator.deallocate(ptr, layout.size);
                assert(self@.lists =~= before.lists);
            },
        }
    }
}

/// The bytes of the free lists and of the regions are not negative, and
/// those of a part are no more than those of the whole.
pub proof fn lemma_bytes_nonnegative(state: HeapState)
    ensures
        region_bytes(state.regions) >= 0,
        forall|u: int| 0 <= u <= BLOCK_CLASSES ==> 0 <= #[trigger] list_bytes(state.lists, u)
            <= list_bytes(state.lists, BLOCK_CLASSES as int),
        forall|u: int| 0 <= u <= state.regions.len() ==> 0 <= #[trigger] region_bytes(
            state.regions.take(u),
        ) <= region_bytes(state.regions),
{
    reveal_with_fuel(list_bytes, 10);
    assert forall|u: int| 0 <= u <= BLOCK_CLASSES implies 0 <= #[trigger] list_bytes(state.lists, u)
        <= list_bytes(state.lists, BLOCK_CLASSES as int) by {
        assert forall|c: int| 0 <= c < 9 implies block_size_of(c) * state.lists[c].len() >= 0 by {
            assert(block_size_of(c) * state.lists[c].len() >= 0) by (nonlinear_arith)
                requires
                    block_size_of(c) >= 0,
                    state.lists[c].len() >= 0,
            ;
        }
    }
    assert forall|u: int| 0 <= u <= state.regions.len() implies 0 <= #[trigger] region_bytes(
        state.regions.take(u),
    ) <= region_bytes(state.regions) by {
        lemma_region_bytes_prefix(state.regions, u);
    }
    lemma_region_bytes_prefix(state.regions, 0);
}

/// The bytes of the first regions of a list are no more than those of all.
pub proof fn lemma_region_bytes_prefix(regions: Seq<FreeRegion>, u: int)
    requires
        0 <= u <= regions.len(),
    ensures
        0 <= region_bytes(regions.take(u)) <= region_bytes(regions),
    decreases regions.len() - u,
{
    if u == regions.len() {
        assert(regions.take(u) =~= regions);
        lemma_region_bytes_positive(regions);
    } else {
        lemma_region_bytes_prefix(regions, u + 1);
        assert(regions.take(u + 1).drop_last() =~= regions.take(u));
        lemma_region_bytes_positive(regions.take(u));
    }
}

/// The bytes of a list of regions are not negative.
pub proof fn lemma_region_bytes_positive(regions: Seq<FreeRegion>)
    ensures
        region_bytes(regions) >= 0,
    decreases regions.len(),
{
    if regions.len() > 0 {
        lemma_region_bytes_positive(regions.drop_last());
    }
}

/// A power of two up to 2048 divides every block size that is no smaller.
pub proof fn lemma_power_divides(align: int)
    requires
        is_power_of_two(align),
    ensures
        align > 0,
        forall|class: int|
            0 <= class < 9 && align <= #[trigger] block_size_of(class) ==> block_size_of(class)
                % align == 0,
{
    reveal_with_fuel(is_power_of_two, 14);
    if align <= 2048 {
        assert(align == 1 || align == 2 || align == 4 || align == 8 || align == 16 || align == 32
            || align == 64 || align == 128 || align == 256 || align == 512 || align == 1024
            || align == 2048);
    }
    assert forall|class: int|
        0 <= class < 9 && align <= #[trigger] block_size_of(class) implies block_size_of(class)
        % align == 0 by {
        let size = block_size_of(class);
        if align == 1 {
            assert(size % 1 == 0);
        } else if align == 2 {
            assert(size % 2 == 0);
        } else if align == 4 {
            assert(size % 4 == 0);
        } else if align == 8 {
            assert(size % 8 == 0);
        } else if align == 16 {
            assert(size % 16 == 0);
        } else if align == 32 {
            assert(size % 32 == 0);
        } else if align == 64 {
            assert(size % 64 == 0);
        } else if align == 128 {
            assert(size % 128 == 0);
        } else if align == 256 {
            assert(size % 256 == 0);
        } else if align == 512 {
            assert(size % 512 == 0);
        } else if align == 1024 {
            assert(size % 1024 == 0);
        } else {
            assert(size % 2048 == 0);
        }
    }
}

/// A multiple of a multiple of `c` is a multiple of `c`.
pub proof fn lemma_divides(a: int, b: int, c: int)
    requires
        b > 0,
        c > 0,
        a % b == 0,
        b % c == 0,
    ensures
        a % c == 0,
{
    let x = a / b;
    let y = b / c;
    assert(a == x * b && b == y * c) by (nonlinear_arith)
        requires
            a % b == 0,
            b % c == 0,
            b > 0,
            c > 0,
            x == a / b,
            y == b / c,
    ;
    assert(a == (x * y) * c) by (nonlinear_arith)
        requires
            a == x * b,
            b == y * c,
    ;
    assert(((x * y) * c) % c == 0) by (nonlinear_arith)
        requires
            c > 0,
    ;
}

} // verus!
