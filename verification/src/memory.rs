//! The physical frame allocator: an immutable catalog of boot-reported
//! memory regions and a cursor over the 4096-byte frames of its usable
//! regions, yielded one per call in catalog order.
use vstd::prelude::*;

use crate::addr::{align_down_4k, frame_containing_address, PHYS_ADDR_LIMIT};

verus! {

/// Classification of a physical memory region as the bootloader reports it.
#[derive(Clone, Copy, PartialEq, Eq, Structural, Debug)]
pub enum MemoryRegionType {
    /// Free for general use.
    Usable,
    /// Claimed by firmware or hardware.
    Reserved,
    /// Any other bootloader-specific classification.
    Other,
}

/// One contiguous physical byte range `[start, end)` with its boot-reported
/// type.
#[derive(Clone, Copy, PartialEq, Eq, Structural, Debug)]
pub struct MemoryRegion {
    /// First byte of the region.
    pub start: u64,
    /// One past the last byte of the region.
    pub end: u64,
    /// The boot-reported classification.
    pub kind: MemoryRegionType,
}

/// How many frame start addresses the region contains when stepping from
/// `start` by 4096 while below `end`.
pub open spec fn region_frame_count(r: MemoryRegion) -> int {
    if r.end <= r.start {
        0
    } else {
        (r.end - r.start - 1) / 4096 + 1
    }
}

/// The `k`-th frame drawn from a region: the step address rounded down to a
/// frame boundary.
pub open spec fn region_frame(r: MemoryRegion, k: int) -> u64 {
    align_down_4k(r.start + 4096 * k) as u64
}

/// The frames a single region contributes: all of its step addresses if it
/// is usable, none otherwise.
pub open spec fn region_frames(r: MemoryRegion) -> Seq<u64> {
    if r.kind is Usable {
        Seq::new(region_frame_count(r) as nat, |k: int| region_frame(r, k))
    } else {
        Seq::empty()
    }
}

/// The frames contributed by the first `i` regions of the catalog, in
/// catalog order.
pub open spec fn usable_frames_prefix(regions: Seq<MemoryRegion>, i: int) -> Seq<u64>
    decreases i,
{
    if i <= 0 {
        Seq::empty()
    } else {
        usable_frames_prefix(regions, i - 1) + region_frames(regions[i - 1])
    }
}

/// Every frame the catalog can ever yield, in the order the allocator
/// yields them.
pub open spec fn usable_frames(regions: Seq<MemoryRegion>) -> Seq<u64> {
    usable_frames_prefix(regions, regions.len() as int)
}

/// Count of 4096-byte units across the usable ones of the first `i` regions.
pub open spec fn usable_units_prefix(regions: Seq<MemoryRegion>, i: int) -> int
    decreases i,
{
    if i <= 0 {
        0
    } else {
        usable_units_prefix(regions, i - 1) + if regions[i - 1].kind is Usable {
            region_frame_count(regions[i - 1])
        } else {
            0
        }
    }
}

/// Total count of 4096-byte units across the usable regions of the catalog.
pub open spec fn total_usable_units(regions: Seq<MemoryRegion>) -> int {
    usable_units_prefix(regions, regions.len() as int)
}

/// A well-formed catalog: page-aligned region starts, and regions disjoint
/// and given in ascending address order.
pub open spec fn catalog_wf(regions: Seq<MemoryRegion>) -> bool {
    &&& forall|i: int| 0 <= i < regions.len() ==> (#[trigger] regions[i]).start % 4096 == 0
    &&& forall|i: int, j: int|
        0 <= i < j < regions.len() ==> (#[trigger] regions[i]).end <= (#[trigger] regions[j]).start
}

/// Yields the usable physical frames of a boot-supplied region catalog, one
/// per call, never repeating a frame.
pub struct BootInfoFrameAllocator {
    regions: Vec<MemoryRegion>,
    next: usize,
}

impl BootInfoFrameAllocator {
    /// The catalog the allocator was built over.
    pub closed spec fn catalog(self) -> Seq<MemoryRegion> {
        self.regions@
    }

    /// How many calls to `allocate_frame` have been made.
    pub closed spec fn allocated(self) -> nat {
        self.next as nat
    }

    /// All region addresses stay below the 52-bit physical limit.
    pub closed spec fn wf(self) -> bool {
        forall|i: int|
            0 <= i < self.regions@.len() ==> (#[trigger] self.regions@[i]).end <= PHYS_ADDR_LIMIT
    }

    /// How many frames the allocator can still yield.
    pub open spec fn frames_left(self) -> int {
        let total = usable_frames(self.catalog()).len() as int;
        if self.allocated() < total {
            total - self.allocated()
        } else {
            0
        }
    }

    /// Builds an allocator over the boot-supplied catalog. The caller — the
    /// boot hand-off — vouches that the regions describe physical memory,
    /// which bounds every address by the hardware's 52-bit limit.
    pub fn init(regions: Vec<MemoryRegion>) -> (r: Self)
        requires
            forall|i: int|
                0 <= i < regions@.len() ==> (#[trigger] regions@[i]).end <= PHYS_ADDR_LIMIT,
        ensures
            r.wf(),
            r.catalog() == regions@,
            r.allocated() == 0,
    {
        BootInfoFrameAllocator { regions, next: 0 }
    }

    /// Every frame this allocator can yield starts on a frame boundary and
    /// lies below the 52-bit physical limit.
    pub proof fn lemma_frame_bounds(self, t: int)
        requires
            self.wf(),
            0 <= t < usable_frames(self.catalog()).len(),
        ensures
            usable_frames(self.catalog())[t] % 4096 == 0,
            usable_frames(self.catalog())[t] < PHYS_ADDR_LIMIT,
    {
        lemma_prefix_frame_bounds(self.regions@, self.regions@.len() as int, t);
    }

    /// Yields the next not-yet-issued frame of the usable regions, in
    /// catalog order, or `None` once all have been issued. The cursor
    /// advances on every call, including exhausted ones.
    pub fn allocate_frame(&mut self) -> (r: Option<u64>)
        requires
            old(self).wf(),
            old(self).allocated() < usize::MAX,
        ensures
            final(self).wf(),
            final(self).catalog() == old(self).catalog(),
            final(self).allocated() == old(self).allocated() + 1,
            ({
                let fs = usable_frames(old(self).catalog());
                if old(self).allocated() < fs.len() {
                    r == Some(fs[old(self).allocated() as int])
                } else {
                    r is None
                }
            }),
    {
        let mut idx: usize = 0;
        let mut remaining: u64 = self.next as u64;
        while idx < self.regions.len()
            invariant
                *self == *old(self),
                self.wf(),
                self.next < usize::MAX,
                idx <= self.regions@.len(),
                usable_frames_prefix(self.regions@, idx as int).len() + remaining
                    == self.next as int,
            decreases self.regions@.len() - idx,
        {
            let r = self.regions[idx];
            if r.kind == MemoryRegionType::Usable && r.end > r.start {
                let count: u64 = (r.end - r.start - 1) / 4096 + 1;
                proof {
                    vstd::arithmetic::div_mod::lemma_fundamental_div_mod(
                        r.end as int - r.start as int - 1,
                        4096,
                    );
                    vstd::arithmetic::div_mod::lemma_mod_bound(
                        r.end as int - r.start as int - 1,
                        4096,
                    );
                    assert(region_frame_count(r) == count);
                }
                if remaining < count {
                    proof {
                        assert(4096 * (remaining as int) <= 4096 * (count as int - 1))
                            by (nonlinear_arith)
                            requires remaining < count;
                    }
                    let addr: u64 = r.start + 4096 * remaining;
                    let f = frame_containing_address(addr);
                    proof {
                        lemma_usable_frames_index(self.regions@, idx as int, remaining as int);
                        assert(region_frames(self.regions@[idx as int])[remaining as int]
                            == region_frame(r, remaining as int));
                    }
                    self.next = self.next + 1;
                    return Some(f);
                } else {
                    remaining = remaining - count;
                }
            } else {
                proof {
                    assert(region_frames(self.regions@[idx as int]).len() == 0);
                }
            }
            idx = idx + 1;
        }
        self.next = self.next + 1;
        None
    }
}

/// The position of a region's `j`-th frame in the concatenated frame
/// sequence, and its value.
proof fn lemma_prefix_index(regions: Seq<MemoryRegion>, i: int, j: int, k: int)
    requires
        0 <= i < k <= regions.len(),
        0 <= j < region_frames(regions[i]).len(),
    ensures
        usable_frames_prefix(regions, k).len() >= usable_frames_prefix(regions, i).len() + j + 1,
        usable_frames_prefix(regions, k)[usable_frames_prefix(regions, i).len() + j]
            == region_frames(regions[i])[j],
    decreases k,
{
    if k == i + 1 {
    } else {
        lemma_prefix_index(regions, i, j, k - 1);
    }
}

/// Every element of the frame sequence is aligned and bounded by the end of
/// the region it comes from.
proof fn lemma_prefix_frame_bounds(regions: Seq<MemoryRegion>, k: int, t: int)
    requires
        forall|i: int| 0 <= i < regions.len() ==> (#[trigger] regions[i]).end <= PHYS_ADDR_LIMIT,
        0 <= k <= regions.len(),
        0 <= t < usable_frames_prefix(regions, k).len(),
    ensures
        usable_frames_prefix(regions, k)[t] % 4096 == 0,
        usable_frames_prefix(regions, k)[t] < PHYS_ADDR_LIMIT,
    decreases k,
{
    let pre = usable_frames_prefix(regions, k - 1);
    if t < pre.len() {
        lemma_prefix_frame_bounds(regions, k - 1, t);
    } else {
        let r = regions[k - 1];
        let u = t - pre.len();
        let count = region_frame_count(r);
        let addr = r.start + 4096 * u;
        vstd::arithmetic::div_mod::lemma_fundamental_div_mod(
            r.end as int - r.start as int - 1,
            4096,
        );
        vstd::arithmetic::div_mod::lemma_mod_bound(r.end as int - r.start as int - 1, 4096);
        assert(4096 * u <= 4096 * (count - 1)) by (nonlinear_arith)
            requires u <= count - 1;
        assert(addr < r.end);
        vstd::arithmetic::div_mod::lemma_fundamental_div_mod(addr, 4096);
        vstd::arithmetic::div_mod::lemma_mod_bound(addr, 4096);
        vstd::arithmetic::div_mod::lemma_mod_multiples_basic(addr / 4096, 4096);
        assert(align_down_4k(addr) % 4096 == 0);
        assert(align_down_4k(addr) <= addr);
    }
}

/// Over an aligned region, the `t`-th frame is exactly `start + 4096 * t`,
/// and it lies inside the region.
proof fn lemma_region_frame_value(r: MemoryRegion, t: int)
    requires
        r.start % 4096 == 0,
        0 <= t < region_frame_count(r),
    ensures
        region_frame(r, t) == r.start + 4096 * t,
        r.start <= region_frame(r, t) < r.end,
{
    let count = region_frame_count(r);
    vstd::arithmetic::div_mod::lemma_fundamental_div_mod(r.end as int - r.start as int - 1, 4096);
    vstd::arithmetic::div_mod::lemma_mod_bound(r.end as int - r.start as int - 1, 4096);
    assert(4096 * t <= 4096 * (count - 1)) by (nonlinear_arith)
        requires t <= count - 1;
    let addr = r.start + 4096 * t;
    assert(addr < r.end);
    vstd::arithmetic::div_mod::lemma_mod_multiples_vanish(t, r.start as int, 4096);
    assert(addr % 4096 == 0);
    vstd::arithmetic::div_mod::lemma_fundamental_div_mod(addr, 4096);
    assert(align_down_4k(addr) == addr);
}

/// The frames of the first `k` regions of a well-formed catalog come in
/// strictly ascending address order, and all lie below the start of every
/// later region.
proof fn lemma_prefix_ascending(regions: Seq<MemoryRegion>, k: int)
    requires
        catalog_wf(regions),
        0 <= k <= regions.len(),
    ensures
        forall|a: int, b: int|
            0 <= a < b < usable_frames_prefix(regions, k).len()
                ==> usable_frames_prefix(regions, k)[a] < usable_frames_prefix(regions, k)[b],
        forall|a: int, m: int|
            #![trigger usable_frames_prefix(regions, k)[a], regions[m]]
            0 <= a < usable_frames_prefix(regions, k).len() && k <= m < regions.len()
                ==> usable_frames_prefix(regions, k)[a] < regions[m].start,
    decreases k,
{
    if k > 0 {
        lemma_prefix_ascending(regions, k - 1);
        let r = regions[k - 1];
        let pre = usable_frames_prefix(regions, k - 1);
        let cur = usable_frames_prefix(regions, k);
        if r.kind is Usable {
            assert forall|t: int| 0 <= t < region_frame_count(r) implies region_frame(r, t)
                == r.start + 4096 * t && r.start <= region_frame(r, t) < r.end by {
                lemma_region_frame_value(r, t);
            }
        }
        assert forall|a: int, b: int| 0 <= a < b < cur.len() implies cur[a] < cur[b] by {
            if b >= pre.len() {
                let tb = b - pre.len();
                assert(cur[b] == region_frame(r, tb));
                if a >= pre.len() {
                    let ta = a - pre.len();
                    assert(cur[a] == region_frame(r, ta));
                } else {
                    assert(pre[a] < r.start);
                }
            }
        }
        assert forall|a: int, m: int|
            #![trigger cur[a], regions[m]]
            0 <= a < cur.len() && k <= m < regions.len() implies cur[a] < regions[m].start by {
            if a >= pre.len() {
                let ta = a - pre.len();
                assert(cur[a] == region_frame(r, ta));
                assert(cur[a] < r.end);
                assert(r.end <= regions[m].start);
            } else {
                assert(pre[a] < regions[m].start);
            }
        }
    }
}

/// Law: over a well-formed catalog — aligned region starts, regions
/// disjoint and ascending — the frame sequence is strictly increasing, so
/// no frame is ever yielded twice. Together with `allocate_frame`'s
/// contract (the `n`-th call returns the `n`-th element of this sequence),
/// the set of frames an allocator returns over its lifetime has no
/// duplicates.
pub proof fn lemma_no_frame_reuse(regions: Seq<MemoryRegion>, i: int, j: int)
    requires
        catalog_wf(regions),
        0 <= i < j < usable_frames(regions).len(),
    ensures
        usable_frames(regions)[i] < usable_frames(regions)[j],
{
    lemma_prefix_ascending(regions, regions.len() as int);
}

/// Law: the catalog can yield exactly as many frames as its usable regions
/// hold 4096-byte units — the allocator can never hand out more than that.
pub proof fn lemma_frame_supply_bound(regions: Seq<MemoryRegion>)
    ensures
        usable_frames(regions).len() == total_usable_units(regions),
{
    lemma_units_prefix(regions, regions.len() as int);
}

/// The prefix frame sequence has exactly the prefix unit count as length.
proof fn lemma_units_prefix(regions: Seq<MemoryRegion>, k: int)
    requires
        0 <= k <= regions.len(),
    ensures
        usable_frames_prefix(regions, k).len() == usable_units_prefix(regions, k),
    decreases k,
{
    if k > 0 {
        lemma_units_prefix(regions, k - 1);
    }
}

/// Same statement for the whole catalog.
proof fn lemma_usable_frames_index(regions: Seq<MemoryRegion>, i: int, j: int)
    requires
        0 <= i < regions.len(),
        0 <= j < region_frames(regions[i]).len(),
    ensures
        usable_frames(regions).len() >= usable_frames_prefix(regions, i).len() + j + 1,
        usable_frames(regions)[usable_frames_prefix(regions, i).len() + j]
            == region_frames(regions[i])[j],
{
    lemma_prefix_index(regions, i, j, regions.len() as int);
}

} // verus!
