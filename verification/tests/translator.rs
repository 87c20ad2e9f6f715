//! Map/translate behaviour of the page-table translator.
use kernel_memory::memory::{BootInfoFrameAllocator, MemoryRegion, MemoryRegionType};
use kernel_memory::paging::{self, MapError, PageFlags};

fn usable(start: u64, end: u64) -> MemoryRegion {
    MemoryRegion { start, end, kind: MemoryRegionType::Usable }
}

fn kernel_flags() -> PageFlags {
    PageFlags { writable: true, user_accessible: false }
}

#[test]
fn map_then_translate_round_trip() {
    let mut alloc = BootInfoFrameAllocator::init(vec![usable(0x10_0000, 0x20_0000)]);
    let mut mapper = paging::init(0x1111_0000_0000);
    let r = mapper.map_to(0x2000, 0xdead_b000, kernel_flags(), &mut alloc);
    assert_eq!(r, Ok(()));
    let entry = mapper.translate_page(0x2000).expect("page must be mapped");
    assert_eq!(entry.frame, 0xdead_b000);
    assert_eq!(entry.flags, kernel_flags());
}

#[test]
fn translate_of_never_mapped_page_is_none() {
    let mut alloc = BootInfoFrameAllocator::init(vec![usable(0x10_0000, 0x20_0000)]);
    let mut mapper = paging::init(0);
    assert!(mapper.translate_page(0x5000).is_none());
    mapper.map_to(0x2000, 0x3000, kernel_flags(), &mut alloc).unwrap();
    // A neighbouring page stays unmapped.
    assert!(mapper.translate_page(0x1000).is_none());
    assert!(mapper.translate_page(0x3000).is_none());
}

#[test]
fn remapping_a_page_reports_already_mapped_and_keeps_the_original() {
    let mut alloc = BootInfoFrameAllocator::init(vec![usable(0x10_0000, 0x20_0000)]);
    let mut mapper = paging::init(0);
    mapper.map_to(0x4000, 0x7000, kernel_flags(), &mut alloc).unwrap();
    let r = mapper.map_to(
        0x4000,
        0x8000,
        PageFlags { writable: false, user_accessible: true },
        &mut alloc,
    );
    assert_eq!(r, Err(MapError::AlreadyMapped));
    let entry = mapper.translate_page(0x4000).expect("original mapping must survive");
    assert_eq!(entry.frame, 0x7000);
    assert_eq!(entry.flags, kernel_flags());
}

#[test]
fn pages_differing_in_any_level_index_map_independently() {
    let mut alloc = BootInfoFrameAllocator::init(vec![usable(0x10_0000, 0x80_0000)]);
    let mut mapper = paging::init(0);
    // Differ from 0x0 in the level-1, level-2, level-3 and level-4 index.
    let pages: [u64; 5] = [0x0, 0x1000, 0x20_0000, 0x4000_0000, 0x80_0000_0000];
    for (k, page) in pages.iter().enumerate() {
        let frame = 0x10_0000 * (k as u64 + 1);
        assert_eq!(mapper.map_to(*page, frame, kernel_flags(), &mut alloc), Ok(()));
    }
    for (k, page) in pages.iter().enumerate() {
        let frame = 0x10_0000 * (k as u64 + 1);
        assert_eq!(mapper.translate_page(*page).unwrap().frame, frame);
    }
}

#[test]
fn high_half_pages_translate_like_low_half_ones() {
    let mut alloc = BootInfoFrameAllocator::init(vec![usable(0x10_0000, 0x20_0000)]);
    let mut mapper = paging::init(0);
    let page: u64 = 0xffff_8000_0000_0000;
    assert_eq!(mapper.map_to(page, 0x9000, kernel_flags(), &mut alloc), Ok(()));
    assert_eq!(mapper.translate_page(page).unwrap().frame, 0x9000);
    assert!(mapper.translate_page(0xffff_8000_0000_1000).is_none());
}

#[test]
fn translate_addr_adds_the_offset_within_the_page() {
    let mut alloc = BootInfoFrameAllocator::init(vec![usable(0x10_0000, 0x20_0000)]);
    let mut mapper = paging::init(0);
    mapper.map_to(0x2000, 0xa000, kernel_flags(), &mut alloc).unwrap();
    assert_eq!(mapper.translate_addr(0x2abc), Some(0xaabc));
    assert_eq!(mapper.translate_addr(0x2000), Some(0xa000));
    assert_eq!(mapper.translate_addr(0x3abc), None);
}

#[test]
fn mapping_fails_when_the_allocator_cannot_back_the_tables() {
    // One frame is not enough for the three intermediate tables of the
    // first mapping.
    let mut alloc = BootInfoFrameAllocator::init(vec![usable(0x10_0000, 0x10_1000)]);
    let mut mapper = paging::init(0);
    let r = mapper.map_to(0x2000, 0x5000, kernel_flags(), &mut alloc);
    assert_eq!(r, Err(MapError::FrameAllocationFailed));
    assert!(mapper.translate_page(0x2000).is_none());
}

#[test]
fn physical_memory_offset_is_kept() {
    let mapper = paging::init(0xabc0_0000_0000);
    assert_eq!(mapper.physical_memory_offset(), 0xabc0_0000_0000);
}
