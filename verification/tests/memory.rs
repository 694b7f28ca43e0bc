use kernel::allocator::heap_bounds;
use kernel::memory::{largest_usable_region, MemoryInfo, MemoryRegion, MemoryRegionKind};

fn region(start: u64, end: u64, kind: MemoryRegionKind) -> MemoryRegion {
    MemoryRegion { start, end, kind }
}

#[test]
fn summary_of_memory_map() {
    let regions = [
        region(0x0, 0x1000, MemoryRegionKind::Bootloader),
        region(0x1000, 0x9f000, MemoryRegionKind::Usable),
        region(0x100000, 0x7fe0000, MemoryRegionKind::Usable),
        region(0x8000000, 0x9000000, MemoryRegionKind::UnknownBios(2)),
        region(0x9000000, 0x9000000 + 0x7ee0000, MemoryRegionKind::Usable),
    ];
    let info = MemoryInfo::from_regions(&regions);
    assert_eq!(info.total_usable, 0x9e000 + 0x7ee0000 + 0x7ee0000);
    // Two regions share the largest size: the first one wins.
    assert_eq!(info.largest_usable_region_start, 0x100000);
    assert_eq!(info.largest_usable_region_size, 0x7ee0000);
    assert_eq!(largest_usable_region(&regions), (0x100000, 0x7ee0000));
}

#[test]
fn no_usable_region() {
    let regions = [region(0x0, 0x1000, MemoryRegionKind::UnknownUefi(7))];
    let info = MemoryInfo::from_regions(&regions);
    assert_eq!(info, MemoryInfo { total_usable: 0, largest_usable_region_start: 0, largest_usable_region_size: 0 });
    assert_eq!(largest_usable_region(&[]), (0, 0));
}

#[test]
fn heap_goes_above_kernel_image() {
    assert_eq!(heap_bounds(0x1000, 0x7f_0000), (0x101000, 0x20_0000));
    // The heap is clipped to the region's end.
    assert_eq!(heap_bounds(0x20_0123, 0x1000), (0x20_1000, 0x123));
    assert_eq!(heap_bounds(0x10_0000, 0x10_0000), (0x10_1000, 0xff000));
    // A region that ends below the heap's start leaves no room.
    assert_eq!(heap_bounds(0x1000, 0x1000), (0x10_1000, 0));
}
