//! Bump heap allocator: allocation moves a cursor up; freeing reclaims nothing.
use vstd::prelude::*;
use crate::ring_buffer::{EventRing, ring_push};
use crate::events::{EventType, log_event, make_event};

verus! {

/// Size of the kernel heap: 2 MiB.
pub const HEAP_SIZE: usize = 2097152;

/// Addresses below 1 MiB hold the kernel image; the heap starts above them.
pub const KERNEL_RESERVED: usize = 0x100000;

/// `align` is a power of two.
pub open spec fn is_pow2(align: usize) -> bool {
    align > 0 && align & ((align - 1) as usize) == 0
}

/// The cursor `x` rounded up to the alignment `align` (a power of two): the multiple of `align`
/// in `x..x + align`.
pub open spec fn align_up(x: usize, align: usize) -> usize {
    ((x + align - 1) as usize) & !((align - 1) as usize)
}

/// Rounding up to a power of two lands on a multiple of it, at most `align - 1` past `x`.
pub proof fn law_align_up(x: usize, a: usize)
    requires
        is_pow2(a),
        x + a - 1 <= usize::MAX,
    ensures
        align_up(x, a) & ((a - 1) as usize) == 0,
        x <= align_up(x, a) < x + a,
{
    let y = (x + a - 1) as usize;
    let m = (a - 1) as usize;
    assert((y & !m) & m == 0 && y & !m <= y && y - (y & !m) <= m) by (bit_vector);
}

proof fn lemma_page_floor(x: usize)
    ensures
        x & !0xFFFusize == (x / 4096) * 4096,
{
    assert(x & !0xFFFusize == x - x % 4096) by (bit_vector);
}

/// Bump allocator state.
pub struct BumpAllocator {
    heap_start: usize,
    heap_end: usize,
    next: usize,
    allocations: u64,
}

impl BumpAllocator {
    /// First address of the heap.
    pub closed spec fn spec_heap_start(&self) -> usize {
        self.heap_start
    }

    /// Address just past the heap.
    pub closed spec fn spec_heap_end(&self) -> usize {
        self.heap_end
    }

    /// The next free address.
    pub closed spec fn spec_next(&self) -> usize {
        self.next
    }

    /// Number of allocations handed out.
    pub closed spec fn spec_allocations(&self) -> u64 {
        self.allocations
    }

    /// An empty allocator, with an empty heap at address 0.
    pub fn new() -> (r: Self)
        ensures
            r.spec_heap_start() == 0,
            r.spec_heap_end() == 0,
            r.spec_next() == 0,
            r.spec_allocations() == 0,
    {
        BumpAllocator { heap_start: 0, heap_end: 0, next: 0, allocations: 0 }
    }

    /// The next free address.
    pub fn next_free(&self) -> (r: usize)
        ensures
            r == self.spec_next(),
    {
        self.next
    }

    /// Places the heap at `start..start + size`, with the cursor at its start.
    pub fn init(&mut self, start: usize, size: usize)
        requires
            start + size <= usize::MAX,
        ensures
            final(self).spec_heap_start() == start,
            final(self).spec_heap_end() == start + size,
            final(self).spec_next() == start,
            final(self).spec_allocations() == old(self).spec_allocations(),
    {
        self.heap_start = start;
        self.heap_end = start + size;
        self.next = start;
    }

    /// Allocates `size` bytes aligned to `align` (at least 16): returns the address, or `None`
    /// when the heap has no room. A successful allocation is logged to `events`.
    pub fn allocate(&mut self, size: usize, align: usize, events: &mut EventRing) -> (r: Option<usize>)
        requires
            is_pow2(align),
            old(events).wf(),
            old(self).spec_next() + effective_align(align) <= usize::MAX,
            align_up(old(self).spec_next(), effective_align(align)) + size <= usize::MAX,
            align_up(old(self).spec_next(), effective_align(align)) + size <= old(self).spec_heap_end()
                ==> old(self).spec_allocations() < u64::MAX,
        ensures
            final(events).wf(),
            allocate_post(*old(self), *final(self), size, align, r),
            r is None ==> final(events)@ == old(events)@,
            r is Some ==> final(events)@ == ring_push(
                old(events)@,
                make_event(EventType::MemAlloc.spec_code(), size as u64, r->0 as u64, 0),
            ),
    {
        let a = if align > 16 { align } else { 16 };
        proof {
            assert(16usize & 15usize == 0) by (bit_vector);
            law_align_up(self.next, a);
        }
        let next_aligned = (self.next + a - 1) & !(a - 1);
        if next_aligned + size > self.heap_end {
            return None;
        }
        self.next = next_aligned + size;
        self.allocations += 1;
        log_event(events, EventType::MemAlloc.code(), size as u64, next_aligned as u64, 0);
        Some(next_aligned)
    }

    /// Releases an allocation: nothing is reclaimed, the release is logged to `events`.
    pub fn dealloc(&self, ptr: usize, size: usize, events: &mut EventRing)
        requires
            old(events).wf(),
        ensures
            final(events).wf(),
            final(events)@ == ring_push(
                old(events)@,
                make_event(EventType::MemFree.spec_code(), size as u64, ptr as u64, 0),
            ),
    {
        log_event(events, EventType::MemFree.code(), size as u64, ptr as u64, 0);
    }
}

/// What an allocation of `size` bytes at alignment `align` does: the cursor rounded up to the
/// alignment (at least 16) is handed out when `size` bytes fit below the heap end, and the
/// cursor moves past them; else nothing changes.
pub open spec fn allocate_post(pre: BumpAllocator, post: BumpAllocator, size: usize, align: usize, r: Option<usize>) -> bool {
    let addr = align_up(pre.spec_next(), effective_align(align));
    if addr + size > pre.spec_heap_end() {
        &&& r is None
        &&& post == pre
    } else {
        &&& r == Some(addr)
        &&& addr & ((effective_align(align) - 1) as usize) == 0
        &&& pre.spec_next() <= addr < pre.spec_next() + effective_align(align)
        &&& post.spec_next() == addr + size
        &&& post.spec_allocations() == pre.spec_allocations() + 1
        &&& post.spec_heap_start() == pre.spec_heap_start()
        &&& post.spec_heap_end() == pre.spec_heap_end()
    }
}

/// Two successive allocations never overlap, and both lie inside the heap.
pub proof fn law_allocations_disjoint(
    a0: BumpAllocator, a1: BumpAllocator, a2: BumpAllocator,
    size1: usize, align1: usize, p1: usize, size2: usize, align2: usize, p2: usize,
)
    requires
        a0.spec_heap_start() <= a0.spec_next(),
        allocate_post(a0, a1, size1, align1, Some(p1)),
        allocate_post(a1, a2, size2, align2, Some(p2)),
    ensures
        p1 + size1 <= p2,
        a0.spec_heap_start() <= p1,
        p2 + size2 <= a0.spec_heap_end(),
{
}

/// The alignment the allocator uses: the requested one, at least 16.
pub open spec fn effective_align(align: usize) -> usize {
    if align > 16 { align } else { 16 }
}

/// Number of allocations the kernel heap has handed out (the heap instance is owned by the
/// caller).
pub fn allocations(heap: &BumpAllocator) -> (r: u64)
    ensures
        r == heap.spec_allocations(),
{
    heap.allocations
}

/// Room left in the region `start..start + size` from address `heap_start` on.
pub open spec fn room_from(largest_start: u64, largest_size: u64, heap_start: int) -> int {
    if largest_start + largest_size > heap_start {
        largest_start + largest_size - heap_start
    } else {
        0
    }
}

/// Where the kernel heap goes inside the largest usable region `start..start + size`: it
/// starts on the first page boundary past the 4 KiB page that follows `max(start, 1 MiB)`,
/// and holds `HEAP_SIZE` bytes, or fewer when the region is smaller or ends sooner.
/// Returns `(heap_start, heap_size)`.
pub fn heap_bounds(largest_start: u64, largest_size: u64) -> (r: (usize, usize))
    requires
        (if largest_start as usize > KERNEL_RESERVED { largest_start as usize } else { KERNEL_RESERVED })
            + 0x1000 <= usize::MAX,
        largest_start + largest_size <= u64::MAX,
    ensures
        r.0 == (((if largest_start as usize > KERNEL_RESERVED { largest_start as usize } else { KERNEL_RESERVED })
            + 0x1000) / 4096) * 4096,
        r.1 == vstd::math::min(
            vstd::math::min(largest_size as usize as int, HEAP_SIZE as int),
            room_from(largest_start, largest_size, r.0 as int),
        ),
        r.0 + r.1 <= largest_start + largest_size || r.1 == 0,
{
    let size = largest_size as usize;
    let mut heap_size = if size < HEAP_SIZE { size } else { HEAP_SIZE };
    let start = largest_start as usize;
    let base = if start > KERNEL_RESERVED { start } else { KERNEL_RESERVED };
    proof {
        lemma_page_floor((base + 0x1000) as usize);
    }
    let heap_start = (base + 0x1000) & !0xFFF;
    let end = largest_start + largest_size;
    let room: u64 = if end > heap_start as u64 { end - heap_start as u64 } else { 0 };
    if (heap_size as u64) > room {
        heap_size = room as usize;
    }
    (heap_start, heap_size)
}

} // verus!
