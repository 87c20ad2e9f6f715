//! Heap-initializer behaviour: page counts, flags, and error surfacing.
use kernel_memory::heap::{init_heap, HeapInitError};
use kernel_memory::memory::{BootInfoFrameAllocator, MemoryRegion, MemoryRegionType};
use kernel_memory::paging::{self, PageFlags};

fn usable(start: u64, end: u64) -> MemoryRegion {
    MemoryRegion { start, end, kind: MemoryRegionType::Usable }
}

#[test]
fn a_size_that_is_no_page_multiple_maps_only_whole_pages() {
    let mut alloc = BootInfoFrameAllocator::init(vec![usable(0x10_0000, 0x80_0000)]);
    let mut mapper = paging::init(0);
    let heap_start: u64 = 0x4444_0000;
    // 0x4100 bytes hold four whole pages.
    assert_eq!(init_heap(&mut mapper, &mut alloc, heap_start, 0x4100), Ok(()));
    for i in 0..4u64 {
        let entry = mapper.translate_page(heap_start + 0x1000 * i).expect("heap page mapped");
        assert_eq!(entry.flags, PageFlags { writable: true, user_accessible: false });
    }
    // The fifth page lies past the floor of the size and stays unmapped.
    assert!(mapper.translate_page(heap_start + 0x4000).is_none());
}

#[test]
fn heap_pages_are_backed_by_distinct_frames() {
    let mut alloc = BootInfoFrameAllocator::init(vec![usable(0x10_0000, 0x80_0000)]);
    let mut mapper = paging::init(0);
    let heap_start: u64 = 0x4444_0000;
    assert_eq!(init_heap(&mut mapper, &mut alloc, heap_start, 0x8000), Ok(()));
    let mut frames = Vec::new();
    for i in 0..8u64 {
        let f = mapper.translate_page(heap_start + 0x1000 * i).unwrap().frame;
        assert!(!frames.contains(&f));
        frames.push(f);
    }
}

#[test]
fn a_zero_sized_heap_maps_nothing() {
    let mut alloc = BootInfoFrameAllocator::init(vec![usable(0x10_0000, 0x20_0000)]);
    let mut mapper = paging::init(0);
    assert_eq!(init_heap(&mut mapper, &mut alloc, 0x4444_0000, 0), Ok(()));
    assert!(mapper.translate_page(0x4444_0000).is_none());
}

#[test]
fn a_conflicting_page_surfaces_mapping_conflict() {
    let mut alloc = BootInfoFrameAllocator::init(vec![usable(0x10_0000, 0x80_0000)]);
    let mut mapper = paging::init(0);
    let heap_start: u64 = 0x4444_0000;
    let flags = PageFlags { writable: true, user_accessible: false };
    // Pre-map the third heap page.
    mapper.map_to(heap_start + 0x2000, 0x7000, flags, &mut alloc).unwrap();
    let r = init_heap(&mut mapper, &mut alloc, heap_start, 0x5000);
    assert_eq!(r, Err(HeapInitError::MappingConflict));
    // The pages before the conflict stay mapped; the conflicting one keeps
    // its original frame.
    assert!(mapper.translate_page(heap_start).is_some());
    assert!(mapper.translate_page(heap_start + 0x1000).is_some());
    assert_eq!(mapper.translate_page(heap_start + 0x2000).unwrap().frame, 0x7000);
}

#[test]
fn an_exhausted_allocator_surfaces_allocation_failure() {
    // Two frames cannot back three intermediate tables plus a page.
    let mut alloc = BootInfoFrameAllocator::init(vec![usable(0x10_0000, 0x10_2000)]);
    let mut mapper = paging::init(0);
    let r = init_heap(&mut mapper, &mut alloc, 0x4444_0000, 0x3000);
    assert_eq!(r, Err(HeapInitError::AllocationFailure));
    assert!(mapper.translate_page(0x4444_0000).is_none());
}

#[test]
fn the_library_smoke_check_runs() {
    kernel_memory::trivial_assertion();
}
