//! Heap initialization: maps one frame behind every page of a fixed virtual
//! range, with writable kernel-only flags, and stops at the first error.
//! Pages mapped before a failure stay mapped; no rollback is attempted.
use vstd::prelude::*;

use crate::addr::page_valid;
use crate::memory::BootInfoFrameAllocator;
use crate::paging::{MapError, OffsetPageTable, PageFlags};

verus! {

/// Why heap initialization failed.
#[derive(Clone, Copy, PartialEq, Eq, Structural, Debug)]
pub enum HeapInitError {
    /// Some heap page was already mapped: a logic error in the caller.
    MappingConflict,
    /// The frame allocator was exhausted before the range was backed.
    AllocationFailure,
}

/// The flags every heap page is mapped with: writable, kernel-only.
pub open spec fn heap_flags() -> PageFlags {
    PageFlags { writable: true, user_accessible: false }
}

/// The translator maps `p` with the heap's flags.
pub open spec fn mapped_as_heap(m: OffsetPageTable, p: u64) -> bool {
    match m.page_entry(p) {
        Some(e) => e.flags == heap_flags(),
        None => false,
    }
}

/// The `i`-th page of the heap range.
pub open spec fn heap_page(heap_start: u64, i: int) -> u64 {
    (heap_start + 4096 * i) as u64
}

/// How many whole pages fit in the requested byte size.
pub open spec fn heap_page_count(heap_size: u64) -> int {
    heap_size as int / 4096
}

/// The range starts on a page boundary and all of its pages lie in one
/// canonical half of the address space.
pub open spec fn heap_range_valid(heap_start: u64, heap_size: u64) -> bool {
    let n = heap_page_count(heap_size);
    &&& heap_start % 4096 == 0
    &&& (n == 0 || heap_start + 4096 * n <= 0x0000_8000_0000_0000 || (heap_start
        >= 0xffff_8000_0000_0000 && heap_start + 4096 * n <= 0x1_0000_0000_0000_0000))
}

/// `q` is one of the first `i` pages of the heap range.
pub open spec fn in_heap_prefix(heap_start: u64, i: int, q: u64) -> bool {
    exists|j: int| 0 <= j < i && q == heap_page(heap_start, j)
}

/// `q` is one of the heap range's pages.
pub open spec fn in_heap_range(heap_start: u64, heap_size: u64, q: u64) -> bool {
    in_heap_prefix(heap_start, heap_page_count(heap_size), q)
}

/// The running guarantee of `init_heap`: the first `i` heap pages were
/// unmapped at entry and are now mapped as heap, and every other valid page
/// still translates as it did at entry.
pub open spec fn heap_prefix_done(
    old_m: OffsetPageTable,
    m: OffsetPageTable,
    heap_start: u64,
    i: int,
) -> bool {
    &&& forall|j: int|
        #![trigger heap_page(heap_start, j)]
        0 <= j < i ==> old_m.page_entry(heap_page(heap_start, j)) is None && mapped_as_heap(
            m,
            heap_page(heap_start, j),
        )
    &&& forall|q: u64|
        page_valid(q) && !in_heap_prefix(heap_start, i, q) ==> #[trigger] m.page_entry(q)
            == old_m.page_entry(q)
}

/// Every page of a valid heap range is a valid page, and the arithmetic
/// that reaches it stays below `u64::MAX`.
proof fn lemma_heap_page_valid(heap_start: u64, heap_size: u64, i: int)
    requires
        heap_range_valid(heap_start, heap_size),
        0 <= i < heap_page_count(heap_size),
    ensures
        page_valid(heap_page(heap_start, i)),
        heap_start + 4096 * i < 0x1_0000_0000_0000_0000,
        heap_page(heap_start, i) == heap_start + 4096 * i,
{
    let n = heap_page_count(heap_size);
    assert(4096 * i < 4096 * n && 4096 * i >= 0) by (nonlinear_arith)
        requires 0 <= i < n;
    vstd::arithmetic::div_mod::lemma_mod_multiples_vanish(i, heap_start as int, 4096);
}

/// Distinct indices reach distinct heap pages.
proof fn lemma_heap_pages_distinct(heap_start: u64, heap_size: u64, i: int, j: int)
    requires
        heap_range_valid(heap_start, heap_size),
        0 <= i < heap_page_count(heap_size),
        0 <= j < heap_page_count(heap_size),
        i != j,
    ensures
        heap_page(heap_start, i) != heap_page(heap_start, j),
{
    lemma_heap_page_valid(heap_start, heap_size, i);
    lemma_heap_page_valid(heap_start, heap_size, j);
}

/// A heap page with index at or past `i` is not among the first `i`.
proof fn lemma_page_not_in_prefix(heap_start: u64, heap_size: u64, i: int, j: int)
    requires
        heap_range_valid(heap_start, heap_size),
        0 <= i <= j < heap_page_count(heap_size),
    ensures
        !in_heap_prefix(heap_start, i, heap_page(heap_start, j)),
{
    if in_heap_prefix(heap_start, i, heap_page(heap_start, j)) {
        let j2 = choose|j2: int|
            0 <= j2 < i && heap_page(heap_start, j) == heap_page(heap_start, j2);
        lemma_heap_pages_distinct(heap_start, heap_size, j, j2);
    }
}

/// A page outside the heap range is outside every prefix of it.
proof fn lemma_outside_range_outside_prefix(heap_start: u64, heap_size: u64, i: int, q: u64)
    requires
        0 <= i <= heap_page_count(heap_size),
        !in_heap_range(heap_start, heap_size, q),
    ensures
        !in_heap_prefix(heap_start, i, q),
{
    if in_heap_prefix(heap_start, i, q) {
        let j = choose|j: int| 0 <= j < i && q == heap_page(heap_start, j);
        assert(0 <= j < heap_page_count(heap_size) && q == heap_page(heap_start, j));
    }
}

/// One successful mapping step extends the running guarantee by one page.
proof fn lemma_prefix_extend(
    old_m: OffsetPageTable,
    pre: OffsetPageTable,
    post: OffsetPageTable,
    heap_start: u64,
    heap_size: u64,
    i: int,
)
    requires
        heap_range_valid(heap_start, heap_size),
        0 <= i < heap_page_count(heap_size),
        heap_prefix_done(old_m, pre, heap_start, i),
        forall|q: u64|
            page_valid(q) && q != heap_page(heap_start, i) ==> #[trigger] post.page_entry(q)
                == pre.page_entry(q),
        pre.page_entry(heap_page(heap_start, i)) is None,
        mapped_as_heap(post, heap_page(heap_start, i)),
    ensures
        heap_prefix_done(old_m, post, heap_start, i + 1),
{
    lemma_heap_page_valid(heap_start, heap_size, i);
    lemma_page_not_in_prefix(heap_start, heap_size, i, i);
    assert forall|j: int|
        #![trigger heap_page(heap_start, j)]
        0 <= j < i + 1 implies old_m.page_entry(heap_page(heap_start, j)) is None
        && mapped_as_heap(post, heap_page(heap_start, j)) by {
        lemma_heap_page_valid(heap_start, heap_size, j);
        if j < i {
            lemma_heap_pages_distinct(heap_start, heap_size, i, j);
        }
    }
    assert forall|q: u64|
        page_valid(q) && !in_heap_prefix(heap_start, i + 1, q) implies #[trigger] post.page_entry(
        q,
    ) == old_m.page_entry(q) by {
        assert(!in_heap_prefix(heap_start, i, q)) by {
            if in_heap_prefix(heap_start, i, q) {
                let j = choose|j: int| 0 <= j < i && q == heap_page(heap_start, j);
                assert(0 <= j < i + 1 && q == heap_page(heap_start, j));
            }
        }
        assert(q != heap_page(heap_start, i)) by {
            if q == heap_page(heap_start, i) {
                assert(0 <= i < i + 1 && q == heap_page(heap_start, i));
            }
        }
    }
}

/// A step that leaves the current page's translation as it was keeps the
/// running guarantee and leaves the whole tail of the range unchanged.
proof fn lemma_prefix_stalls(
    old_m: OffsetPageTable,
    pre: OffsetPageTable,
    post: OffsetPageTable,
    heap_start: u64,
    heap_size: u64,
    i: int,
)
    requires
        heap_range_valid(heap_start, heap_size),
        0 <= i < heap_page_count(heap_size),
        heap_prefix_done(old_m, pre, heap_start, i),
        forall|q: u64|
            page_valid(q) && q != heap_page(heap_start, i) ==> #[trigger] post.page_entry(q)
                == pre.page_entry(q),
        post.page_entry(heap_page(heap_start, i)) == pre.page_entry(heap_page(heap_start, i)),
    ensures
        heap_prefix_done(old_m, post, heap_start, i),
        forall|j: int|
            #![trigger heap_page(heap_start, j)]
            i <= j < heap_page_count(heap_size) ==> post.page_entry(heap_page(heap_start, j))
                == old_m.page_entry(heap_page(heap_start, j)),
{
    lemma_heap_page_valid(heap_start, heap_size, i);
    lemma_page_not_in_prefix(heap_start, heap_size, i, i);
    assert forall|j: int|
        #![trigger heap_page(heap_start, j)]
        0 <= j < i implies old_m.page_entry(heap_page(heap_start, j)) is None && mapped_as_heap(
        post,
        heap_page(heap_start, j),
    ) by {
        lemma_heap_page_valid(heap_start, heap_size, j);
        lemma_heap_pages_distinct(heap_start, heap_size, i, j);
    }
    assert forall|j: int|
        #![trigger heap_page(heap_start, j)]
        i <= j < heap_page_count(heap_size) implies post.page_entry(heap_page(heap_start, j))
        == old_m.page_entry(heap_page(heap_start, j)) by {
        lemma_heap_page_valid(heap_start, heap_size, j);
        lemma_page_not_in_prefix(heap_start, heap_size, i, j);
        if j != i {
            lemma_heap_pages_distinct(heap_start, heap_size, i, j);
        }
    }
}

/// Maps the `heap_size / 4096` consecutive pages from `heap_start`, drawing
/// one frame per page plus one per missing intermediate table, and surfaces
/// the first error without unmapping what was already mapped. Success is
/// owed whenever no heap page is mapped yet and the allocator holds at
/// least four frames per page; no page outside the range ever changes.
pub fn init_heap(
    mapper: &mut OffsetPageTable,
    frame_allocator: &mut BootInfoFrameAllocator,
    heap_start: u64,
    heap_size: u64,
) -> (r: Result<(), HeapInitError>)
    requires
        old(mapper).wf(),
        old(frame_allocator).wf(),
        heap_range_valid(heap_start, heap_size),
        old(frame_allocator).allocated() + 4 * heap_page_count(heap_size) + 4 <= usize::MAX,
    ensures
        final(mapper).wf(),
        final(mapper).phys_offset() == old(mapper).phys_offset(),
        final(frame_allocator).wf(),
        final(frame_allocator).catalog() == old(frame_allocator).catalog(),
        final(frame_allocator).allocated() <= old(frame_allocator).allocated() + 4
            * heap_page_count(heap_size),
        forall|q: u64|
            page_valid(q) && !in_heap_range(heap_start, heap_size, q) ==> #[trigger] final(mapper).page_entry(q) == old(mapper).page_entry(q),
        match r {
            Ok(()) => heap_prefix_done(
                *old(mapper),
                *final(mapper),
                heap_start,
                heap_page_count(heap_size),
            ),
            Err(HeapInitError::MappingConflict) => exists|k: int|
                #![trigger heap_page(heap_start, k)]
                0 <= k < heap_page_count(heap_size) && old(mapper).page_entry(
                    heap_page(heap_start, k),
                ) is Some && heap_prefix_done(*old(mapper), *final(mapper), heap_start, k) && (
                forall|j: int|
                    #![trigger heap_page(heap_start, j)]
                    k <= j < heap_page_count(heap_size) ==> final(mapper).page_entry(
                        heap_page(heap_start, j),
                    ) == old(mapper).page_entry(heap_page(heap_start, j))),
            Err(HeapInitError::AllocationFailure) => final(frame_allocator).frames_left() == 0
                && exists|k: int|
                #![trigger heap_page(heap_start, k)]
                0 <= k < heap_page_count(heap_size) && heap_prefix_done(
                    *old(mapper),
                    *final(mapper),
                    heap_start,
                    k,
                ) && (forall|j: int|
                    #![trigger heap_page(heap_start, j)]
                    k <= j < heap_page_count(heap_size) ==> final(mapper).page_entry(
                        heap_page(heap_start, j),
                    ) == old(mapper).page_entry(heap_page(heap_start, j))),
        },
        ((forall|i: int|
            0 <= i < heap_page_count(heap_size) ==> #[trigger] old(mapper).page_entry(
                heap_page(heap_start, i),
            ) is None) && old(frame_allocator).frames_left() >= 4 * heap_page_count(heap_size))
            ==> r is Ok,
{
    let pages: u64 = heap_size / 4096;
    let flags = PageFlags { writable: true, user_accessible: false };
    let mut i: u64 = 0;
    while i < pages
        invariant
            i <= pages,
            pages as int == heap_page_count(heap_size),
            heap_range_valid(heap_start, heap_size),
            flags == heap_flags(),
            mapper.wf(),
            mapper.phys_offset() == old(mapper).phys_offset(),
            frame_allocator.wf(),
            frame_allocator.catalog() == old(frame_allocator).catalog(),
            old(frame_allocator).allocated() + 4 * pages + 4 <= usize::MAX,
            frame_allocator.allocated() <= old(frame_allocator).allocated() + 4 * i,
            heap_prefix_done(*old(mapper), *mapper, heap_start, i as int),
            old(frame_allocator).frames_left() >= 4 * pages ==> frame_allocator.frames_left() >= 4
                * (pages - i),
        decreases pages - i,
    {
        proof {
            lemma_heap_page_valid(heap_start, heap_size, i as int);
            lemma_page_not_in_prefix(heap_start, heap_size, i as int, i as int);
        }
        let page: u64 = heap_start + 4096 * i;
        let ghost pre = *mapper;
        let frame = match frame_allocator.allocate_frame() {
            Some(f) => f,
            None => {
                proof {
                    lemma_prefix_stalls(*old(mapper), pre, *mapper, heap_start, heap_size, i as int);
                    assert forall|q: u64|
                        page_valid(q) && !in_heap_range(heap_start, heap_size, q) implies
                        #[trigger] mapper.page_entry(q) == old(mapper).page_entry(q) by {
                        lemma_outside_range_outside_prefix(heap_start, heap_size, i as int, q);
                    }
                }
                return Err(HeapInitError::AllocationFailure);
            },
        };
        proof {
            frame_allocator.lemma_frame_bounds((frame_allocator.allocated() - 1) as int);
        }
        match mapper.map_to(page, frame, flags, frame_allocator) {
            Ok(()) => {
                proof {
                    lemma_prefix_extend(*old(mapper), pre, *mapper, heap_start, heap_size, i as int);
                }
            },
            Err(MapError::AlreadyMapped) => {
                proof {
                    lemma_prefix_stalls(*old(mapper), pre, *mapper, heap_start, heap_size, i as int);
                    assert(old(mapper).page_entry(heap_page(heap_start, i as int)) is Some);
                    assert forall|q: u64|
                        page_valid(q) && !in_heap_range(heap_start, heap_size, q) implies
                        #[trigger] mapper.page_entry(q) == old(mapper).page_entry(q) by {
                        lemma_outside_range_outside_prefix(heap_start, heap_size, i as int, q);
                    }
                }
                return Err(HeapInitError::MappingConflict);
            },
            Err(MapError::FrameAllocationFailed) => {
                proof {
                    lemma_prefix_stalls(*old(mapper), pre, *mapper, heap_start, heap_size, i as int);
                    assert forall|q: u64|
                        page_valid(q) && !in_heap_range(heap_start, heap_size, q) implies
                        #[trigger] mapper.page_entry(q) == old(mapper).page_entry(q) by {
                        lemma_outside_range_outside_prefix(heap_start, heap_size, i as int, q);
                    }
                }
                return Err(HeapInitError::AllocationFailure);
            },
        }
        i = i + 1;
    }
    proof {
        assert forall|q: u64|
            page_valid(q) && !in_heap_range(heap_start, heap_size, q) implies
            #[trigger] mapper.page_entry(q) == old(mapper).page_entry(q) by {
            lemma_outside_range_outside_prefix(heap_start, heap_size, pages as int, q);
        }
    }
    Ok(())
}

} // verus!
