//! The physical frame allocator: hands out the 4 KiB frames of the usable memory regions
//! that the boot loader reports, one after another, never taking one back.

use vstd::prelude::*;

verus! {

/// Size of a physical frame.
pub const FRAME_SIZE: u64 = 4096;

/// Most regions the allocator keeps.
pub const MAX_REGIONS: usize = 32;

/// Type that the boot loader's memory map gives to memory free for use.
pub const MEMMAP_USABLE: u64 = 0;

/// Bound on physical addresses: x86_64 physical addresses have at most 52 bits.
pub const MAX_PHYS_ADDR: u64 = 0x10_0000_0000_0000;

/// One entry of the boot loader's memory map.
#[derive(Clone, Copy, PartialEq, Eq, Debug)]
pub struct MemmapEntry {
    pub base: u64,
    pub length: u64,
    pub entry_type: u64,
}

/// Whether the entries of a memory map describe physical memory: every usable region ends
/// within the physical address space.
pub open spec fn memmap_ok(entries: Seq<MemmapEntry>) -> bool {
    forall|i: int|
        0 <= i < entries.len() && #[trigger] entries[i].entry_type == MEMMAP_USABLE ==> entries[i].base
            + entries[i].length <= MAX_PHYS_ADDR
}

/// The usable regions among the first `n` entries of a memory map, as (start, end) pairs.
pub open spec fn usable_regions(entries: Seq<MemmapEntry>, n: int) -> Seq<(u64, u64)>
    decreases n,
{
    if n <= 0 {
        Seq::empty()
    } else {
        let before = usable_regions(entries, n - 1);
        let e = entries[n - 1];
        if e.entry_type == MEMMAP_USABLE {
            before.push((e.base, (e.base + e.length) as u64))
        } else {
            before
        }
    }
}

/// Whether a region is the span of a usable memory-map entry: it starts at the entry's base
/// and ends where the entry ends.
pub open spec fn spans_usable_entry(r: (u64, u64), e: MemmapEntry) -> bool {
    &&& e.entry_type == MEMMAP_USABLE
    &&& r.0 == e.base
    &&& r.1 == e.base + e.length
}

/// Every usable region among the first `n` entries is the span of a usable entry among them.
proof fn lemma_usable_regions_from_entries(entries: Seq<MemmapEntry>, n: int)
    requires
        memmap_ok(entries),
        0 <= n <= entries.len(),
    ensures
        forall|j: int|
            0 <= j < usable_regions(entries, n).len() ==> exists|k: int|
                0 <= k < n && spans_usable_entry(#[trigger] usable_regions(entries, n)[j], entries[k]),
    decreases n,
{
    if n > 0 {
        lemma_usable_regions_from_entries(entries, n - 1);
        let before = usable_regions(entries, n - 1);
        let e = entries[n - 1];
        if e.entry_type == MEMMAP_USABLE {
            assert(e.base + e.length <= MAX_PHYS_ADDR);
            assert forall|j: int| 0 <= j < usable_regions(entries, n).len() implies exists|k: int|
                0 <= k < n && spans_usable_entry(#[trigger] usable_regions(entries, n)[j], entries[k]) by {
                if j < before.len() {
                    assert(usable_regions(entries, n)[j] == before[j]);
                    let k = choose|k: int| 0 <= k < n - 1 && spans_usable_entry(before[j], entries[k]);
                    assert(0 <= k < n);
                } else {
                    assert(spans_usable_entry(usable_regions(entries, n)[j], entries[n - 1]));
                }
            }
        } else {
            assert forall|j: int| 0 <= j < usable_regions(entries, n).len() implies exists|k: int|
                0 <= k < n && spans_usable_entry(#[trigger] usable_regions(entries, n)[j], entries[k]) by {
                let k = choose|k: int| 0 <= k < n - 1 && spans_usable_entry(before[j], entries[k]);
                assert(0 <= k < n);
            }
        }
    }
}

/// Whether every region of the allocator is the span of a usable entry of the memory map.
pub open spec fn regions_from_map(a: FrameAllocator, entries: Seq<MemmapEntry>) -> bool {
    forall|i: int|
        0 <= i < a.region_count ==> exists|k: int|
            0 <= k < entries.len() && spans_usable_entry(#[trigger] a.region(i), entries[k])
}

/// Hands out frames from the usable regions in the order the memory map lists them.
pub struct FrameAllocator {
    pub regions: [(u64, u64); 32],
    pub region_count: usize,
    pub cursor_region: usize,
    pub cursor_addr: u64,
}

impl FrameAllocator {
    /// The regions in use.
    pub open spec fn region(&self, i: int) -> (u64, u64) {
        self.regions@[i]
    }

    /// The bounds the allocator keeps: the regions end within the physical address space, and
    /// the cursor lies in the current region, a whole number of frames past its start.
    pub open spec fn wf(&self) -> bool {
        &&& self.region_count <= MAX_REGIONS
        &&& self.cursor_region <= self.region_count
        &&& forall|i: int|
            #![trigger self.regions@[i]]
            0 <= i < self.region_count ==> self.regions@[i].0 <= self.regions@[i].1 && self.regions@[i].1
                <= MAX_PHYS_ADDR
        &&& self.cursor_addr <= MAX_PHYS_ADDR + FRAME_SIZE
        &&& self.cursor_region < self.region_count ==> self.region(self.cursor_region as int).0
            <= self.cursor_addr
        &&& self.cursor_region < self.region_count ==> (self.cursor_addr - self.region(
            self.cursor_region as int,
        ).0) % FRAME_SIZE as int == 0
    }

    /// What `allocate_frame` does: the allocator after it and the frame it hands out. The
    /// cursor takes the next frame of the current region; a region used up gives way to the
    /// next, whose first frame the cursor then stands on.
    pub open spec fn spec_allocate(self) -> (FrameAllocator, Option<u64>)
        decreases self.region_count - self.cursor_region,
    {
        if self.cursor_region >= self.region_count {
            (self, None)
        } else if self.cursor_addr < self.region(self.cursor_region as int).1 {
            (FrameAllocator { cursor_addr: (self.cursor_addr + FRAME_SIZE) as u64, ..self }, Some(self.cursor_addr))
        } else {
            self.advance().spec_allocate()
        }
    }

    /// The allocator moved on from a used-up region to the first frame of the next one.
    pub open spec fn advance(self) -> FrameAllocator {
        let next = (self.cursor_region + 1) as usize;
        let addr = if next < self.region_count {
            self.region(next as int).0
        } else {
            self.cursor_addr
        };
        FrameAllocator { cursor_region: next, cursor_addr: addr, ..self }
    }

    /// An allocator over the usable regions of a memory map (the first 32 of them), with the
    /// cursor on the first frame of the first region.
    pub fn new(entries: &[MemmapEntry]) -> (a: Self)
        requires
            memmap_ok(entries@),
        ensures
            a.wf(),
            a.region_count == if usable_regions(entries@, entries@.len() as int).len() < MAX_REGIONS {
                usable_regions(entries@, entries@.len() as int).len() as int
            } else {
                MAX_REGIONS as int
            },
            forall|i: int| 0 <= i < a.region_count ==> #[trigger] a.region(i) == usable_regions(entries@, entries@.len() as int)[i],
            forall|i: int| a.region_count <= i < MAX_REGIONS ==> #[trigger] a.region(i) == (0u64, 0u64),
            regions_from_map(a, entries@),
            a.cursor_region == 0,
            a.cursor_addr == if a.region_count > 0 { a.region(0).0 } else { 0 },
    {
        let mut regions = [(0u64, 0u64); 32];
        let mut count: usize = 0;
        let mut k: usize = 0;
        while k < entries.len()
            invariant
                k <= entries@.len(),
                memmap_ok(entries@),
                count == if usable_regions(entries@, k as int).len() < MAX_REGIONS {
                    usable_regions(entries@, k as int).len() as int
                } else {
                    MAX_REGIONS as int
                },
                forall|i: int| 0 <= i < count ==> #[trigger] regions@[i] == usable_regions(entries@, k as int)[i],
                forall|i: int| 0 <= i < count ==> #[trigger] regions@[i].0 <= regions@[i].1 <= MAX_PHYS_ADDR,
                forall|i: int| count <= i < MAX_REGIONS ==> #[trigger] regions@[i] == (0u64, 0u64),
            decreases entries@.len() - k,
        {
            let entry = entries[k];
            proof {
                let before = usable_regions(entries@, k as int);
                assert(usable_regions(entries@, k + 1) == if entry.entry_type == MEMMAP_USABLE {
                    before.push((entry.base, (entry.base + entry.length) as u64))
                } else {
                    before
                });
            }
            if entry.entry_type == MEMMAP_USABLE && count < MAX_REGIONS {
                proof {
                    assert(entries@[k as int].entry_type == MEMMAP_USABLE);
                }
                regions[count] = (entry.base, entry.base + entry.length);
                count = count + 1;
            }
            k = k + 1;
        }
        let first_addr = if count > 0 {
            regions[0].0
        } else {
            0
        };
        let a = FrameAllocator { regions, region_count: count, cursor_region: 0, cursor_addr: first_addr };
        proof {
            lemma_usable_regions_from_entries(entries@, entries@.len() as int);
            assert forall|i: int| 0 <= i < a.region_count implies exists|k: int|
                0 <= k < entries@.len() && spans_usable_entry(#[trigger] a.region(i), entries@[k]) by {
                assert(a.region(i) == usable_regions(entries@, entries@.len() as int)[i]);
            }
            if count > 0 {
                assert(a.region(0).0 <= a.region(0).1);
            }
        }
        a
    }

    /// Hands out the next free frame, or `None` when every usable region is used up.
    pub fn allocate_frame(&mut self) -> (frame: Option<u64>)
        requires
            old(self).wf(),
        ensures
            final(self).wf(),
            (*final(self), frame) == old(self).spec_allocate(),
    {
        let ghost start = *self;
        while self.cursor_region < self.region_count
            invariant
                self.wf(),
                self.regions == start.regions,
                self.region_count == start.region_count,
                self.spec_allocate() == start.spec_allocate(),
                start == *old(self),
            decreases self.region_count - self.cursor_region,
        {
            let (_, end) = self.regions[self.cursor_region];
            if self.cursor_addr < end {
                let frame = self.cursor_addr;
                proof {
                    lemma_allocate_keeps_regions(*self);
                }
                let ghost after = self.spec_allocate().0;
                assert(self.cursor_addr < self.region(self.cursor_region as int).1);
                assert(self.spec_allocate().1 == Some(frame));
                self.cursor_addr = self.cursor_addr + FRAME_SIZE;
                assert(*self == after);
                return Some(frame);
            }
            proof {
                lemma_advance_wf(*self);
            }
            let ghost moved = self.advance();
            self.cursor_region = self.cursor_region + 1;
            if self.cursor_region < self.region_count {
                self.cursor_addr = self.regions[self.cursor_region].0;
            }
            assert(*self == moved);
        }
        None
    }
}

/// Moving on to the next region keeps the allocator's bounds.
proof fn lemma_advance_wf(a: FrameAllocator)
    requires
        a.wf(),
        a.cursor_region < a.region_count,
    ensures
        a.advance().wf(),
        a.advance().regions == a.regions,
        a.advance().region_count == a.region_count,
        a.advance().cursor_region == a.cursor_region + 1,
{
    let b = a.advance();
    assert(b.regions == a.regions);
    if b.cursor_region < b.region_count {
        assert(a.region(b.cursor_region as int).0 <= a.region(b.cursor_region as int).1);
    }
}

/// Every frame handed out starts inside one of the usable regions, a whole number of frames
/// past the region's start.
pub proof fn lemma_frame_in_region(a: FrameAllocator)
    requires
        a.wf(),
    ensures
        a.spec_allocate().1 matches Some(f) ==> exists|i: int|
            0 <= i < a.region_count && a.region(i).0 <= f && f < #[trigger] a.region(i).1 && (f - a.region(
                i,
            ).0) % FRAME_SIZE as int == 0,
    decreases a.region_count - a.cursor_region,
{
    if a.cursor_region < a.region_count {
        let cr = a.cursor_region as int;
        if a.cursor_addr >= a.region(cr).1 {
            let b = a.advance();
            lemma_advance_wf(a);
            lemma_frame_in_region(b);
            if let Some(f) = b.spec_allocate().1 {
                let i = choose|i: int|
                    0 <= i < b.region_count && b.region(i).0 <= f && f < #[trigger] b.region(i).1 && (f - b.region(
                        i,
                    ).0) % FRAME_SIZE as int == 0;
                assert(a.region(i) == b.region(i));
            }
        } else {
            assert(a.region(cr).0 <= a.cursor_addr < a.region(cr).1);
        }
    }
}

/// Whether the regions are listed in increasing order of address and do not overlap, as the
/// boot loader's memory map lists them.
pub open spec fn regions_ascending(a: FrameAllocator) -> bool {
    forall|i: int, j: int|
        0 <= i < j < a.region_count ==> #[trigger] a.region(i).1 <= #[trigger] a.region(j).0
}

/// Every frame that the allocator hands out from now on lies at or above `low`.
pub open spec fn frames_from(a: FrameAllocator, low: int) -> bool {
    a.cursor_region < a.region_count ==> low <= a.cursor_addr
}

proof fn lemma_allocation_at_least(a: FrameAllocator, low: int)
    requires
        a.wf(),
        regions_ascending(a),
        frames_from(a, low),
        forall|i: int| a.cursor_region < i < a.region_count ==> low <= #[trigger] a.region(i).0,
    ensures
        a.spec_allocate().1 matches Some(f) ==> low <= f,
    decreases a.region_count - a.cursor_region,
{
    if a.cursor_region < a.region_count && a.cursor_addr >= a.region(a.cursor_region as int).1 {
        let b = a.advance();
        lemma_advance_wf(a);
        assert(regions_ascending(b)) by {
            assert forall|i: int, j: int| 0 <= i < j < b.region_count implies #[trigger] b.region(i).1
                <= #[trigger] b.region(j).0 by {
                assert(a.region(i).1 <= a.region(j).0);
            }
        }
        lemma_allocation_at_least(b, low);
    }
}

/// The allocator after one allocation, and what that allocation handed out, keep the regions.
proof fn lemma_allocate_keeps_regions(a: FrameAllocator)
    requires
        a.wf(),
    ensures
        a.spec_allocate().0.regions == a.regions,
        a.spec_allocate().0.region_count == a.region_count,
        a.spec_allocate().0.wf(),
        a.spec_allocate().1 matches Some(f) ==> a.spec_allocate().0.cursor_region < a.region_count
            && f < a.spec_allocate().0.cursor_addr && a.spec_allocate().0.cursor_addr <= a.region(
            a.spec_allocate().0.cursor_region as int,
        ).1 + FRAME_SIZE,
    decreases a.region_count - a.cursor_region,
{
    if a.cursor_region < a.region_count {
        if a.cursor_addr >= a.region(a.cursor_region as int).1 {
            let b = a.advance();
            lemma_advance_wf(a);
            lemma_allocate_keeps_regions(b);
        } else {
            let b = a.spec_allocate().0;
            let s = a.region(a.cursor_region as int).0 as int;
            assert((a.cursor_addr + 4096 - s) % 4096 == 0) by (nonlinear_arith)
                requires (a.cursor_addr - s) % 4096 == 0, a.cursor_addr >= s;
            assert(b.wf());
        }
    }
}

/// No frame is handed out twice: when the regions ascend, each frame handed out lies above
/// the one before it.
pub proof fn lemma_frames_increase(a: FrameAllocator)
    requires
        a.wf(),
        regions_ascending(a),
    ensures
        ({
            let (b, f1) = a.spec_allocate();
            let (c, f2) = b.spec_allocate();
            f1 matches Some(x) ==> (f2 matches Some(y) ==> x < y)
        }),
{
    let (b, f1) = a.spec_allocate();
    lemma_allocate_keeps_regions(a);
    if let Some(x) = f1 {
        assert(regions_ascending(b)) by {
            assert forall|i: int, j: int| 0 <= i < j < b.region_count implies #[trigger] b.region(i).1
                <= #[trigger] b.region(j).0 by {
                assert(a.region(i).1 <= a.region(j).0);
            }
        }
        lemma_frame_in_region(a);
        let low = x + 1;
        assert forall|i: int| b.cursor_region < i < b.region_count implies low <= #[trigger] b.region(i).0 by {
            let k = choose|k: int|
                0 <= k < a.region_count && a.region(k).0 <= x && x < #[trigger] a.region(k).1 && (x - a.region(
                    k,
                ).0) % FRAME_SIZE as int == 0;
            if k < i {
                assert(a.region(k).1 <= a.region(i).0);
            } else {
                lemma_frame_region_index(a, x, k);
            }
        }
        lemma_allocation_at_least(b, low);
    }
}

/// The frame handed out lies in the region that the cursor ends on, or an earlier one.
proof fn lemma_frame_region_index(a: FrameAllocator, x: u64, k: int)
    requires
        a.wf(),
        regions_ascending(a),
        a.spec_allocate().1 == Some(x),
        0 <= k < a.region_count,
        a.region(k).0 <= x < a.region(k).1,
    ensures
        k <= a.spec_allocate().0.cursor_region,
    decreases a.region_count - a.cursor_region,
{
    if a.cursor_region < a.region_count {
        if a.cursor_addr >= a.region(a.cursor_region as int).1 {
            let b = a.advance();
            lemma_advance_wf(a);
            assert(regions_ascending(b)) by {
                assert forall|i: int, j: int| 0 <= i < j < b.region_count implies #[trigger] b.region(i).1
                    <= #[trigger] b.region(j).0 by {
                    assert(a.region(i).1 <= a.region(j).0);
                }
            }
            lemma_frame_region_index(b, x, k);
        } else {
            let cr = a.cursor_region as int;
            if k > cr {
                assert(a.region(cr).1 <= a.region(k).0);
            }
        }
    }
}

/// Whether the regions do not overlap, in whatever order the memory map lists them.
pub open spec fn regions_disjoint(a: FrameAllocator) -> bool {
    forall|i: int, j: int|
        0 <= i < j < a.region_count ==> #[trigger] a.region(i).1 <= #[trigger] a.region(j).0 || a.region(j).1
            <= a.region(i).0
}

/// Whether the allocator can still hand out the frame at `f`: it lies in the current region
/// at or past the cursor, or in a region after the current one.
pub open spec fn ahead(a: FrameAllocator, f: int) -> bool {
    ||| a.cursor_region < a.region_count && a.cursor_addr <= f < a.region(a.cursor_region as int).1
    ||| exists|r: int| a.cursor_region < r < a.region_count && a.region(r).0 <= f < #[trigger] a.region(r).1
}

/// Whether the allocator has nothing left: allocating hands out nothing and changes nothing.
pub open spec fn exhausted(a: FrameAllocator) -> bool {
    a.spec_allocate() == (a, None::<u64>)
}

/// The allocator after `n` allocations from `a`, and what each of them handed out, in order.
pub open spec fn allocations(a: FrameAllocator, n: nat) -> (FrameAllocator, Seq<Option<u64>>)
    decreases n,
{
    if n == 0 {
        (a, Seq::empty())
    } else {
        let (b, fs) = allocations(a, (n - 1) as nat);
        let (c, f) = b.spec_allocate();
        (c, fs.push(f))
    }
}

/// What the allocator moved on to the next region can hand out, it could before.
proof fn lemma_ahead_advance(a: FrameAllocator, g: int)
    requires
        a.wf(),
        a.cursor_region < a.region_count,
        ahead(a.advance(), g),
    ensures
        ahead(a, g),
{
    let b = a.advance();
    if b.cursor_region < b.region_count && b.cursor_addr <= g < b.region(b.cursor_region as int).1 {
        let r = b.cursor_region as int;
        assert(a.region(r).0 <= g < a.region(r).1);
    } else {
        let r = choose|r: int| b.cursor_region < r < b.region_count && b.region(r).0 <= g < #[trigger] b.region(r).1;
        assert(a.region(r).0 <= g < a.region(r).1);
    }
}

/// A frame handed out is one the allocator could hand out.
proof fn lemma_allocated_ahead(a: FrameAllocator)
    requires
        a.wf(),
    ensures
        a.spec_allocate().1 matches Some(f) ==> ahead(a, f as int),
    decreases a.region_count - a.cursor_region,
{
    if a.cursor_region < a.region_count && a.cursor_addr >= a.region(a.cursor_region as int).1 {
        lemma_advance_wf(a);
        lemma_allocated_ahead(a.advance());
        if let Some(f) = a.spec_allocate().1 {
            lemma_ahead_advance(a, f as int);
        }
    }
}

/// What the allocator can hand out after an allocation, it could before.
proof fn lemma_ahead_shrinks(a: FrameAllocator, g: int)
    requires
        a.wf(),
        ahead(a.spec_allocate().0, g),
    ensures
        ahead(a, g),
    decreases a.region_count - a.cursor_region,
{
    if a.cursor_region < a.region_count {
        if a.cursor_addr >= a.region(a.cursor_region as int).1 {
            lemma_advance_wf(a);
            lemma_ahead_shrinks(a.advance(), g);
            lemma_ahead_advance(a, g);
        } else {
            let b = a.spec_allocate().0;
            if !(b.cursor_region < b.region_count && b.cursor_addr <= g < b.region(b.cursor_region as int).1) {
                let r = choose|r: int| b.cursor_region < r < b.region_count && b.region(r).0 <= g < #[trigger] b.region(r).1;
                assert(a.region(r).0 <= g < a.region(r).1);
            }
        }
    }
}

/// A frame handed out is one the allocator cannot hand out again.
proof fn lemma_allocated_left_behind(a: FrameAllocator)
    requires
        a.wf(),
        regions_disjoint(a),
    ensures
        a.spec_allocate().1 matches Some(f) ==> !ahead(a.spec_allocate().0, f as int),
    decreases a.region_count - a.cursor_region,
{
    if a.cursor_region < a.region_count {
        let cr = a.cursor_region as int;
        if a.cursor_addr >= a.region(cr).1 {
            lemma_advance_wf(a);
            lemma_disjoint_kept(a, a.advance());
            lemma_allocated_left_behind(a.advance());
        } else {
            let b = a.spec_allocate().0;
            let f = a.cursor_addr as int;
            if ahead(b, f) {
                if !(b.cursor_region < b.region_count && b.cursor_addr <= f < b.region(b.cursor_region as int).1) {
                    let r = choose|r: int| b.cursor_region < r < b.region_count && b.region(r).0 <= f < #[trigger] b.region(r).1;
                    assert(a.region(cr).1 <= a.region(r).0 || a.region(r).1 <= a.region(cr).0);
                    assert(a.region(cr).0 <= f);
                }
            }
        }
    }
}

/// An allocator that has handed out nothing has nothing left.
proof fn lemma_none_exhausts(a: FrameAllocator)
    requires
        a.wf(),
        a.spec_allocate().1 is None,
    ensures
        exhausted(a.spec_allocate().0),
    decreases a.region_count - a.cursor_region,
{
    if a.cursor_region < a.region_count {
        lemma_advance_wf(a);
        lemma_none_exhausts(a.advance());
    }
}

/// Over any number of allocations from an allocator whose regions do not overlap, every
/// frame handed out lies in a usable region and differs from every other frame handed out,
/// and once an allocation hands out nothing, every later one hands out nothing.
pub proof fn lemma_allocations(a: FrameAllocator, n: nat)
    requires
        a.wf(),
        regions_disjoint(a),
    ensures
        ({
            let (b, fs) = allocations(a, n);
            &&& fs.len() == n
            &&& b.wf()
            &&& b.regions == a.regions
            &&& b.region_count == a.region_count
            &&& forall|i: int|
                0 <= i < n ==> (#[trigger] fs[i] matches Some(f) ==> exists|r: int|
                    0 <= r < a.region_count && a.region(r).0 <= f && f < #[trigger] a.region(r).1)
            &&& forall|i: int, j: int|
                0 <= i < j < n ==> (#[trigger] fs[i] matches Some(x) ==> (#[trigger] fs[j] matches Some(y)
                    ==> x != y))
            &&& forall|i: int, j: int| 0 <= i < j < n ==> (#[trigger] fs[i] is None ==> #[trigger] fs[j] is None)
            &&& forall|i: int| 0 <= i < n ==> (#[trigger] fs[i] matches Some(x) ==> !ahead(b, x as int))
            &&& forall|i: int| 0 <= i < n ==> (#[trigger] fs[i] is None ==> exhausted(b))
        }),
    decreases n,
{
    if n > 0 {
        lemma_allocations(a, (n - 1) as nat);
        let (b, fs) = allocations(a, (n - 1) as nat);
        let (c, f) = b.spec_allocate();
        let gs = fs.push(f);
        assert(allocations(a, n) == (c, gs));
        lemma_allocate_keeps_regions(b);
        lemma_disjoint_kept(a, b);
        lemma_frame_in_region(b);
        lemma_allocated_ahead(b);
        lemma_allocated_left_behind(b);
        if f is None {
            lemma_none_exhausts(b);
        }
        assert forall|i: int| 0 <= i < n implies (#[trigger] gs[i] matches Some(x) ==> !ahead(c, x as int)) by {
            if i < n - 1 {
                if let Some(x) = gs[i] {
                    assert(fs[i] == gs[i]);
                    if ahead(c, x as int) {
                        lemma_ahead_shrinks(b, x as int);
                    }
                }
            }
        }
        assert forall|i: int| 0 <= i < n implies (#[trigger] gs[i] is None ==> exhausted(c)) by {
            if i < n - 1 && gs[i] is None {
                assert(fs[i] is None);
                assert(exhausted(b));
            }
        }
        assert forall|i: int, j: int| 0 <= i < j < n implies (#[trigger] gs[i] matches Some(x) ==> (
            #[trigger] gs[j] matches Some(y) ==> x != y)) by {
            assert(gs[i] == fs[i]);
            if j < n - 1 {
                assert(gs[j] == fs[j]);
            }
        }
        assert forall|i: int, j: int| 0 <= i < j < n implies (#[trigger] gs[i] is None ==> #[trigger] gs[j]
            is None) by {
            assert(gs[i] == fs[i]);
            if j < n - 1 {
                assert(gs[j] == fs[j]);
            } else if gs[i] is None {
                assert(exhausted(b));
            }
        }
        assert forall|i: int| 0 <= i < n implies (#[trigger] gs[i] matches Some(f) ==> exists|r: int|
            0 <= r < a.region_count && a.region(r).0 <= f && f < #[trigger] a.region(r).1) by {
            if i < n - 1 {
                assert(gs[i] == fs[i]);
            } else if let Some(x) = f {
                let r = choose|r: int|
                    0 <= r < b.region_count && b.region(r).0 <= x && x < #[trigger] b.region(r).1 && (x - b.region(
                        r,
                    ).0) % FRAME_SIZE as int == 0;
                assert(a.region(r) == b.region(r));
            }
        }
    }
}

/// Allocators over the same regions agree on whether the regions overlap.
proof fn lemma_disjoint_kept(a: FrameAllocator, b: FrameAllocator)
    requires
        regions_disjoint(a),
        b.regions == a.regions,
        b.region_count == a.region_count,
    ensures
        regions_disjoint(b),
{
    assert forall|i: int, j: int| 0 <= i < j < b.region_count implies #[trigger] b.region(i).1 <= #[trigger] b.region(
        j,
    ).0 || b.region(j).1 <= b.region(i).0 by {
        assert(a.region(i).1 <= a.region(j).0 || a.region(j).1 <= a.region(i).0);
    }
}

/// Every frame that the allocator hands out, over any number of allocations, lies inside an
/// entry of the memory map whose type is usable, when the allocator's regions come from that
/// map as `new` makes them.
pub proof fn lemma_frames_in_usable_entries(a: FrameAllocator, entries: Seq<MemmapEntry>, n: nat)
    requires
        a.wf(),
        regions_from_map(a, entries),
    ensures
        ({
            let (b, fs) = allocations(a, n);
            &&& fs.len() == n
            &&& b.wf()
            &&& regions_from_map(b, entries)
            &&& forall|i: int|
                0 <= i < n ==> (#[trigger] fs[i] matches Some(f) ==> exists|k: int|
                    0 <= k < entries.len() && entries[k].entry_type == MEMMAP_USABLE && entries[k].base <= f
                        && f < entries[k].base + entries[k].length)
        }),
    decreases n,
{
    if n > 0 {
        lemma_frames_in_usable_entries(a, entries, (n - 1) as nat);
        let (b, fs) = allocations(a, (n - 1) as nat);
        let (c, f) = b.spec_allocate();
        let gs = fs.push(f);
        assert(allocations(a, n) == (c, gs));
        lemma_allocate_keeps_regions(b);
        lemma_frame_in_region(b);
        assert forall|i: int| 0 <= i < c.region_count implies exists|k: int|
            0 <= k < entries.len() && spans_usable_entry(#[trigger] c.region(i), entries[k]) by {
            assert(c.region(i) == b.region(i));
        }
        assert forall|i: int| 0 <= i < n implies (#[trigger] gs[i] matches Some(x) ==> exists|k: int|
            0 <= k < entries.len() && entries[k].entry_type == MEMMAP_USABLE && entries[k].base <= x && x
                < entries[k].base + entries[k].length) by {
            if i < n - 1 {
                assert(gs[i] == fs[i]);
            } else if let Some(x) = f {
                let r = choose|r: int|
                    0 <= r < b.region_count && b.region(r).0 <= x && x < #[trigger] b.region(r).1 && (x - b.region(
                        r,
                    ).0) % FRAME_SIZE as int == 0;
                let k = choose|k: int| 0 <= k < entries.len() && spans_usable_entry(#[trigger] b.region(r), entries[k]);
                assert(entries[k].base <= x < entries[k].base + entries[k].length);
            }
        }
    }
}

} // verus!
