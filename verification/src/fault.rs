//! The decisions of the user-area page fault handler. The handler alternates them with the
//! page table work (translating, unmapping and mapping pages), which its caller performs.
use vstd::prelude::*;
use crate::frame_allocator::{FrameAllocator, TOTAL_FRAMES, alloc_frame_post, free_frame_post};
use crate::s3fifo::S3Fifo;
use crate::s3fifo_model::{evict, total};

verus! {

/// Where the frame for a faulting page comes from.
#[derive(Debug, Clone, Copy, PartialEq, Eq, Structural)]
pub enum FrameSource {
    /// A free frame was allocated.
    Free(usize),
    /// No frame was free: the page cache evicted this user page (it is no longer cached),
    /// whose frame must be unmapped and reclaimed.
    Evicted(u64),
}

/// First step of a fault: allocate a free frame, or, when none is free, evict a page from the
/// page cache.
pub fn take_frame(frames: &mut FrameAllocator, cache: &mut S3Fifo) -> (r: FrameSource)
    requires
        old(frames).wf(),
        old(cache).wf(),
        old(frames).spec_free_count() == 0 ==> total(old(cache)@) > 0,
    ensures
        final(frames).wf(),
        final(cache).wf(),
        final(cache).spec_hits() == old(cache).spec_hits(),
        final(cache).spec_misses() == old(cache).spec_misses(),
        old(frames).spec_free_count() > 0 ==> {
            &&& r is Free
            &&& alloc_frame_post(*old(frames), *final(frames), Some(r->Free_0))
            &&& final(cache)@ == old(cache)@
        },
        old(frames).spec_free_count() == 0 ==> {
            &&& r is Evicted
            &&& *final(frames) == *old(frames)
            &&& r->Evicted_0 == evict(old(cache)@).1
            &&& final(cache)@ == evict(old(cache)@).0
        },
{
    match frames.alloc_frame() {
        Some(f) => FrameSource::Free(f),
        None => {
            let v = crate::s3fifo::evict_one_global(cache);
            FrameSource::Evicted(v)
        }
    }
}

/// Second step after an eviction: the evicted page's frame, if it had one, is freed, and a
/// free frame is allocated and returned.
pub fn reclaim_frame(frames: &mut FrameAllocator, old_frame: Option<usize>) -> (r: usize)
    requires
        old(frames).wf(),
        old(frames).initialized(),
        old_frame is Some ==> old_frame->0 < TOTAL_FRAMES,
        (old_frame is Some && old(frames).allocated().contains(old_frame->0 as int))
            || old(frames).spec_free_count() > 0,
    ensures
        final(frames).wf(),
        final(frames).initialized(),
        r < TOTAL_FRAMES,
        old_frame is None ==> alloc_frame_post(*old(frames), *final(frames), Some(r)),
        old_frame is Some ==> exists|mid: FrameAllocator|
            free_frame_post(*old(frames), mid, old_frame->0) && #[trigger] alloc_frame_post(mid, *final(frames), Some(r)),
{
    let ghost before = *frames;
    if let Some(f) = old_frame {
        frames.free_frame(f);
    }
    let ghost mid = *frames;
    let r = frames.alloc_frame();
    proof {
        assert(mid.spec_free_count() > 0);
        if old_frame is Some {
            assert(free_frame_post(before, mid, old_frame->0));
            assert(alloc_frame_post(mid, *frames, r));
        }
    }
    r.expect("frame_allocator: no free frame after eviction")
}

} // verus!
