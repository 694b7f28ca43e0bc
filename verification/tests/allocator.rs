use kernel::allocator::{self, BumpAllocator, HEAP_SIZE};
use kernel::ring_buffer::{Event, EventRing};

#[test]
fn allocations_are_aligned_and_bumped() {
    let mut ring = EventRing::new();
    let mut heap = BumpAllocator::new();
    heap.init(0x1001, HEAP_SIZE);
    // Alignment is at least 16.
    assert_eq!(heap.allocate(10, 1, &mut ring), Some(0x1010));
    assert_eq!(heap.allocate(8, 8, &mut ring), Some(0x1020));
    assert_eq!(heap.allocate(1, 4096, &mut ring), Some(0x2000));
    assert_eq!(allocator::allocations(&heap), 3);
    let mut out = [Event::zero(); 8];
    assert_eq!(ring.read(&mut out), 3);
    assert_eq!(out[0].event_type, 3);
    assert_eq!((out[0].arg1, out[0].arg2), (10, 0x1010));
    assert_eq!((out[2].arg1, out[2].arg2), (1, 0x2000));
}

#[test]
fn exhausted_heap_returns_none() {
    let mut ring = EventRing::new();
    let mut heap = BumpAllocator::new();
    heap.init(0x1000, 64);
    assert_eq!(heap.allocate(48, 16, &mut ring), Some(0x1000));
    assert_eq!(heap.allocate(32, 16, &mut ring), None);
    assert_eq!(heap.allocate(16, 16, &mut ring), Some(0x1030));
    assert_eq!(allocator::allocations(&heap), 2);
    assert_eq!(ring.len(), 2);
}

#[test]
fn uninitialized_heap_has_no_room() {
    let mut ring = EventRing::new();
    let mut heap = BumpAllocator::new();
    assert_eq!(heap.allocate(1, 1, &mut ring), None);
    assert_eq!(heap.allocate(0, 1, &mut ring), Some(0));
}

#[test]
fn dealloc_only_logs() {
    let mut ring = EventRing::new();
    let heap = BumpAllocator::new();
    heap.dealloc(0x5000, 24, &mut ring);
    let mut out = [Event::zero(); 2];
    assert_eq!(ring.read(&mut out), 1);
    assert_eq!(out[0].event_type, 4);
    assert_eq!((out[0].arg1, out[0].arg2, out[0].arg3), (24, 0x5000, 0));
}
