use kernel::frame_allocator::{self, FrameAllocator, PAGE_SIZE, TOTAL_FRAMES};
use kernel::memory::MemoryInfo;

fn info(start: u64, size: u64) -> MemoryInfo {
    MemoryInfo { total_usable: size, largest_usable_region_start: start, largest_usable_region_size: size }
}

fn ready() -> FrameAllocator {
    let mut fa = FrameAllocator::new();
    fa.init(&info(0x10_0000, 0x700_0000));
    fa
}

#[test]
fn fresh_allocator_has_nothing_to_give() {
    let mut fa = FrameAllocator::new();
    assert_eq!(fa.free_count(), 0);
    assert_eq!(fa.alloc_frame(), None);
    fa.free_frame(3);
    assert_eq!(fa.free_count(), 0);
}

#[test]
fn init_places_pool_at_end_of_region() {
    let fa = ready();
    assert_eq!(fa.free_count(), TOTAL_FRAMES);
    // end = 0x710_0000, minus 512 KiB = 0x708_0000, already page aligned
    assert_eq!(fa.frame_to_phys(0), 0x708_0000);
    let mut fb = FrameAllocator::new();
    fb.init(&info(0x1000, 0x8_0123));
    // 0x1000 + 0x80123 - 0x80000 = 0x1123, rounded up to 0x2000
    assert_eq!(fb.frame_to_phys(0), 0x2000);
}

#[test]
fn alloc_returns_lowest_free_frame() {
    let mut fa = ready();
    assert_eq!(fa.alloc_frame(), Some(0));
    assert_eq!(fa.alloc_frame(), Some(1));
    assert_eq!(fa.alloc_frame(), Some(2));
    assert_eq!(fa.free_count(), TOTAL_FRAMES - 3);
    fa.free_frame(1);
    assert_eq!(fa.free_count(), TOTAL_FRAMES - 2);
    assert_eq!(fa.alloc_frame(), Some(1));
    assert_eq!(fa.alloc_frame(), Some(3));
}

#[test]
fn double_free_is_noop() {
    let mut fa = ready();
    let f = fa.alloc_frame().unwrap();
    fa.free_frame(f);
    let c = fa.free_count();
    fa.free_frame(f);
    assert_eq!(fa.free_count(), c);
    assert_eq!(c, TOTAL_FRAMES);
}

#[test]
fn pool_exhausts_after_total_frames() {
    let mut fa = ready();
    for i in 0..TOTAL_FRAMES {
        assert_eq!(fa.alloc_frame(), Some(i));
    }
    assert_eq!(fa.free_count(), 0);
    assert_eq!(fa.alloc_frame(), None);
    fa.free_frame(100);
    assert_eq!(fa.alloc_frame(), Some(100));
}

#[test]
fn phys_frame_roundtrip() {
    let fa = ready();
    for f in [0usize, 5, 64, 127] {
        assert_eq!(fa.phys_to_frame(fa.frame_to_phys(f)), Some(f));
    }
    let base = fa.frame_to_phys(0);
    assert_eq!(fa.phys_to_frame(base - 1), None);
    assert_eq!(fa.phys_to_frame(base + (TOTAL_FRAMES * PAGE_SIZE) as u64), None);
    assert_eq!(fa.phys_to_frame(base + 4097), Some(1));
}

#[test]
fn module_functions_use_given_pool() {
    let mut fa = FrameAllocator::new();
    frame_allocator::init(&mut fa, &info(0x10_0000, 0x700_0000));
    assert_eq!(frame_allocator::alloc_frame(&mut fa), Some(0));
    assert_eq!(frame_allocator::free_count(&fa), TOTAL_FRAMES - 1);
    frame_allocator::free_frame(&mut fa, 0);
    assert_eq!(frame_allocator::free_count(&fa), TOTAL_FRAMES);
    let p = frame_allocator::frame_to_phys(&fa, 7);
    assert_eq!(p, 0x708_0000 + 7 * 4096);
    assert_eq!(frame_allocator::phys_to_frame(&fa, p), Some(7));
}

#[test]
fn allocated_frames_are_reported() {
    let mut fa = ready();
    assert!(!fa.is_frame_allocated(0));
    fa.alloc_frame();
    assert!(fa.is_frame_allocated(0));
    assert!(!fa.is_frame_allocated(1));
    fa.free_frame(0);
    assert!(!fa.is_frame_allocated(0));
}
