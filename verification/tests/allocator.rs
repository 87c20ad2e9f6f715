//! Frame-allocator behaviour over concrete region catalogs.
use kernel_memory::memory::{BootInfoFrameAllocator, MemoryRegion, MemoryRegionType};

fn region(start: u64, end: u64, kind: MemoryRegionType) -> MemoryRegion {
    MemoryRegion { start, end, kind }
}

#[test]
fn single_usable_region_yields_frames_then_exhausts() {
    let catalog = vec![region(0, 8192, MemoryRegionType::Usable)];
    let mut alloc = BootInfoFrameAllocator::init(catalog);
    assert_eq!(alloc.allocate_frame(), Some(0x0000));
    assert_eq!(alloc.allocate_frame(), Some(0x1000));
    assert_eq!(alloc.allocate_frame(), None);
}

#[test]
fn reserved_regions_are_skipped() {
    let catalog = vec![
        region(0, 0x3000, MemoryRegionType::Usable),
        region(0x3000, 0x4000, MemoryRegionType::Reserved),
        region(0x4000, 0x5000, MemoryRegionType::Usable),
    ];
    let mut alloc = BootInfoFrameAllocator::init(catalog);
    assert_eq!(alloc.allocate_frame(), Some(0x0000));
    assert_eq!(alloc.allocate_frame(), Some(0x1000));
    assert_eq!(alloc.allocate_frame(), Some(0x2000));
    assert_eq!(alloc.allocate_frame(), Some(0x4000));
    assert_eq!(alloc.allocate_frame(), None);
}

#[test]
fn other_regions_are_skipped_too() {
    let catalog = vec![
        region(0, 0x1000, MemoryRegionType::Other),
        region(0x1000, 0x2000, MemoryRegionType::Usable),
    ];
    let mut alloc = BootInfoFrameAllocator::init(catalog);
    assert_eq!(alloc.allocate_frame(), Some(0x1000));
    assert_eq!(alloc.allocate_frame(), None);
}

#[test]
fn unaligned_step_addresses_are_rounded_down_to_frames() {
    // Step addresses are 1000 and 5096; each is rounded down to its frame.
    let catalog = vec![region(1000, 8192, MemoryRegionType::Usable)];
    let mut alloc = BootInfoFrameAllocator::init(catalog);
    assert_eq!(alloc.allocate_frame(), Some(0x0000));
    assert_eq!(alloc.allocate_frame(), Some(0x1000));
    assert_eq!(alloc.allocate_frame(), None);
}

#[test]
fn empty_catalog_is_immediately_exhausted() {
    let mut alloc = BootInfoFrameAllocator::init(Vec::new());
    assert_eq!(alloc.allocate_frame(), None);
}

#[test]
fn no_frame_is_yielded_twice() {
    let catalog = vec![
        region(0, 0x3000, MemoryRegionType::Usable),
        region(0x3000, 0x4000, MemoryRegionType::Reserved),
        region(0x4000, 0x9000, MemoryRegionType::Usable),
    ];
    let mut alloc = BootInfoFrameAllocator::init(catalog);
    let mut seen = Vec::new();
    while let Some(f) = alloc.allocate_frame() {
        assert!(!seen.contains(&f), "frame {f:#x} yielded twice");
        seen.push(f);
    }
    // 3 + 5 usable 4096-byte units in the catalog.
    assert_eq!(seen.len(), 8);
}
