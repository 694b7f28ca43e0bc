use kernel::fault::{reclaim_frame, take_frame, FrameSource};
use kernel::frame_allocator::{FrameAllocator, TOTAL_FRAMES};
use kernel::memory::MemoryInfo;
use kernel::ring_buffer::EventRing;
use kernel::s3fifo::S3Fifo;

fn ready() -> FrameAllocator {
    let mut fa = FrameAllocator::new();
    fa.init(&MemoryInfo { total_usable: 0x700_0000, largest_usable_region_start: 0x10_0000, largest_usable_region_size: 0x700_0000 });
    fa
}

#[test]
fn fault_uses_free_frame_first() {
    let mut fa = ready();
    let mut cache = S3Fifo::new();
    assert_eq!(take_frame(&mut fa, &mut cache), FrameSource::Free(0));
    assert_eq!(take_frame(&mut fa, &mut cache), FrameSource::Free(1));
}

#[test]
fn fault_evicts_when_pool_is_empty() {
    let mut fa = ready();
    let mut ring = EventRing::new();
    let mut cache = S3Fifo::new();
    for vpage in 0..TOTAL_FRAMES {
        match take_frame(&mut fa, &mut cache) {
            FrameSource::Free(f) => assert_eq!(f, vpage),
            FrameSource::Evicted(_) => panic!("pool should have room"),
        }
        cache.access(vpage, &mut ring);
    }
    // No frame is free: the cache evicts the front of its small queue.
    assert_eq!(take_frame(&mut fa, &mut cache), FrameSource::Evicted(112));
    // Page 112 was on frame 112: it is freed and handed out again.
    assert_eq!(reclaim_frame(&mut fa, Some(112)), 112);
    assert_eq!(fa.free_count(), 0);
}

#[test]
fn reclaim_without_old_frame_takes_free_one() {
    let mut fa = ready();
    assert_eq!(reclaim_frame(&mut fa, None), 0);
}
