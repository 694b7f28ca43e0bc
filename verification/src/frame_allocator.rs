//! Physical page frame allocator, bitmap based.
//! Each 4 KiB frame is one bit: 1 = allocated, 0 = free.
use vstd::prelude::*;
use vstd::set_lib::*;
use crate::memory::MemoryInfo;

verus! {

broadcast use vstd::std_specs::bits::axiom_u64_trailing_ones;

/// Size of one page frame in bytes.
pub const PAGE_SIZE: usize = 4096;

/// Number of frames managed by the allocator.
pub const TOTAL_FRAMES: usize = 128;

/// Number of 64-bit words in the bitmap (ceil(TOTAL_FRAMES / 64)).
pub const BITMAP_WORDS: usize = (TOTAL_FRAMES + 63) / 64;

/// Size of the frame pool in bytes.
pub const POOL_BYTES: u64 = 524288;

/// Bit `b` (0..64) of `w` is set.
pub open spec fn bit_set(w: u64, b: int) -> bool {
    (w >> (b as u64)) & 1u64 == 1u64
}

/// The lowest multiple of `PAGE_SIZE` that is at least `x`.
pub open spec fn page_round_up(x: int) -> int {
    ((x + PAGE_SIZE - 1) / (PAGE_SIZE as int)) * (PAGE_SIZE as int)
}

proof fn lemma_set_bit(w: u64, i: u64, j: u64)
    requires
        i < 64,
        j < 64,
    ensures
        ((w | (1u64 << i)) >> j) & 1u64 == (if i == j { 1u64 } else { (w >> j) & 1u64 }),
{
    assert(((w | (1u64 << i)) >> j) & 1u64 == (if i == j { 1u64 } else { (w >> j) & 1u64 }))
        by (bit_vector)
        requires
            i < 64,
            j < 64,
    ;
}

proof fn lemma_clear_bit(w: u64, i: u64, j: u64)
    requires
        i < 64,
        j < 64,
    ensures
        ((w & !(1u64 << i)) >> j) & 1u64 == (if i == j { 0u64 } else { (w >> j) & 1u64 }),
{
    assert(((w & !(1u64 << i)) >> j) & 1u64 == (if i == j { 0u64 } else { (w >> j) & 1u64 }))
        by (bit_vector)
        requires
            i < 64,
            j < 64,
    ;
}

proof fn lemma_test_bit(w: u64, i: u64)
    requires
        i < 64,
    ensures
        (w & (1u64 << i) != 0) == ((w >> i) & 1u64 == 1u64),
{
    assert((w & (1u64 << i) != 0) == ((w >> i) & 1u64 == 1u64)) by (bit_vector)
        requires
            i < 64,
    ;
}

proof fn lemma_bit_is_zero_or_one(w: u64, i: u64)
    ensures
        (w >> i) & 1u64 == 0u64 || (w >> i) & 1u64 == 1u64,
{
    assert((w >> i) & 1u64 == 0u64 || (w >> i) & 1u64 == 1u64) by (bit_vector);
}

proof fn lemma_zero_word(j: u64)
    requires
        j < 64,
    ensures
        (0u64 >> j) & 1u64 == 0u64,
{
    assert((0u64 >> j) & 1u64 == 0u64) by (bit_vector);
}

proof fn lemma_page_align(x: u64)
    requires
        x + 4095 <= u64::MAX,
    ensures
        ((x + 4095) as u64) & !4095u64 == page_round_up(x as int),
{
    let y = (x + 4095) as u64;
    assert(y & !4095u64 == y - y % 4096) by (bit_vector);
}

/// What `alloc_frame` does: with no free frame it returns `None` and changes nothing; else it
/// returns the lowest free frame, which becomes allocated, and the free count drops by one.
pub open spec fn alloc_frame_post(pre: FrameAllocator, post: FrameAllocator, r: Option<usize>) -> bool {
    &&& post.spec_base() == pre.spec_base()
    &&& pre.initialized() ==> post.initialized()
    &&& pre.spec_free_count() == 0 ==> r is None && post == pre
    &&& pre.spec_free_count() > 0 ==> {
        &&& r is Some
        &&& r->0 < TOTAL_FRAMES
        &&& !pre.allocated().contains(r->0 as int)
        &&& forall|g: int| 0 <= g < r->0 ==> pre.allocated().contains(g)
        &&& post.allocated() == pre.allocated().insert(r->0 as int)
        &&& post.spec_free_count() == pre.spec_free_count() - 1
    }
}

/// What `free_frame(frame)` does: an allocated frame becomes free and the free count grows by
/// one; freeing a frame that is not allocated changes nothing.
pub open spec fn free_frame_post(pre: FrameAllocator, post: FrameAllocator, frame: usize) -> bool {
    &&& post.spec_base() == pre.spec_base()
    &&& pre.initialized() ==> post.initialized()
    &&& post.allocated() == pre.allocated().remove(frame as int)
    &&& pre.allocated().contains(frame as int) ==> post.spec_free_count() == pre.spec_free_count() + 1
    &&& !pre.allocated().contains(frame as int) ==> post == pre
}

/// Frame allocator state.
pub struct FrameAllocator {
    /// Bitmap: each bit is one 4 KiB frame. 1 = allocated, 0 = free.
    bitmap: Vec<u64>,
    /// Physical address of frame 0.
    base: u64,
    /// Number of free frames.
    free_count: usize,
}

impl FrameAllocator {
    /// Frame `frame` is marked allocated in the bitmap.
    pub closed spec fn is_allocated(&self, frame: int) -> bool {
        bit_set(self.bitmap@[frame / 64], frame % 64)
    }

    /// The set of allocated frames.
    pub closed spec fn allocated(&self) -> Set<int> {
        Set::new(|f: int| 0 <= f < TOTAL_FRAMES && self.is_allocated(f))
    }

    /// The number of free frames the allocator reports.
    pub closed spec fn spec_free_count(&self) -> usize {
        self.free_count
    }

    /// The physical address of frame 0.
    pub closed spec fn spec_base(&self) -> u64 {
        self.base
    }

    /// Physical address of frame `frame`.
    pub open spec fn phys_of(&self, frame: int) -> int {
        self.spec_base() + frame * PAGE_SIZE
    }

    /// The frame that holds physical address `phys`, if it lies in the pool.
    pub open spec fn frame_of(&self, phys: int) -> Option<usize> {
        if self.spec_base() <= phys < self.spec_base() + POOL_BYTES {
            Some(((phys - self.spec_base()) / (PAGE_SIZE as int)) as usize)
        } else {
            None
        }
    }

    /// The allocator has been initialized: its free count matches the bitmap.
    pub open spec fn initialized(&self) -> bool {
        self.spec_free_count() + self.allocated().len() == TOTAL_FRAMES
    }

    /// Well-formedness: the bitmap has its size, and either the free count matches the bitmap
    /// or the allocator is still in its pristine state (nothing free, nothing allocated).
    pub closed spec fn wf(&self) -> bool {
        &&& self.bitmap@.len() == BITMAP_WORDS
        &&& self.allocated().finite()
        &&& (self.initialized() || (self.free_count == 0 && self.allocated() == Set::<int>::empty()))
    }

    proof fn lemma_allocated_bounded(&self)
        requires
            self.bitmap@.len() == BITMAP_WORDS,
        ensures
            self.allocated().finite(),
            self.allocated().len() <= TOTAL_FRAMES,
            self.allocated().subset_of(set_int_range(0, TOTAL_FRAMES as int)),
    {
        lemma_int_range(0, TOTAL_FRAMES as int);
        lemma_len_subset(self.allocated(), set_int_range(0, TOTAL_FRAMES as int));
    }

    /// A fresh allocator: nothing free until `init` is called.
    pub fn new() -> (r: Self)
        ensures
            r.wf(),
            r.spec_free_count() == 0,
            r.allocated() == Set::<int>::empty(),
            r.spec_base() == 0,
    {
        let mut bitmap: Vec<u64> = Vec::new();
        let mut i: usize = 0;
        while i < BITMAP_WORDS
            invariant
                i <= BITMAP_WORDS,
                bitmap@.len() == i,
                forall|k: int| 0 <= k < i ==> bitmap@[k] == 0u64,
            decreases BITMAP_WORDS - i,
        {
            bitmap.push(0);
            i = i + 1;
        }
        let r = FrameAllocator { bitmap, base: 0, free_count: 0 };
        proof {
            assert forall|f: int| 0 <= f < TOTAL_FRAMES implies !r.is_allocated(f) by {
                lemma_zero_word((f % 64) as u64);
            }
            assert(r.allocated() =~= Set::<int>::empty());
        }
        r
    }

    proof fn lemma_word_view(&self, other: &Self, w: int)
        requires
            self.bitmap@.len() == BITMAP_WORDS,
            other.bitmap@.len() == BITMAP_WORDS,
            0 <= w < BITMAP_WORDS,
            forall|k: int| 0 <= k < BITMAP_WORDS && k != w ==> self.bitmap@[k] == other.bitmap@[k],
        ensures
            forall|f: int| 0 <= f < TOTAL_FRAMES && f / 64 != w ==> (self.is_allocated(f) == other.is_allocated(f)),
    {
    }

    /// Initializes the pool at the end of the largest usable region: all frames become free.
    /// The pool's base is the page-aligned address `POOL_BYTES` below the region's end.
    pub fn init(&mut self, mem: &MemoryInfo)
        requires
            old(self).wf(),
            mem.largest_usable_region_start + mem.largest_usable_region_size <= u64::MAX,
            mem.largest_usable_region_start + mem.largest_usable_region_size >= POOL_BYTES,
            mem.largest_usable_region_start + mem.largest_usable_region_size - POOL_BYTES + 4095 <= u64::MAX,
        ensures
            final(self).wf(),
            final(self).initialized(),
            final(self).allocated() == Set::<int>::empty(),
            final(self).spec_free_count() == TOTAL_FRAMES,
            final(self).spec_base() == page_round_up(
                mem.largest_usable_region_start + mem.largest_usable_region_size - POOL_BYTES,
            ),
    {
        let pool_start = mem.largest_usable_region_start + mem.largest_usable_region_size
            - (TOTAL_FRAMES * PAGE_SIZE) as u64;
        proof {
            lemma_page_align(pool_start);
        }
        let mut i: usize = 0;
        while i < BITMAP_WORDS
            invariant
                i <= BITMAP_WORDS,
                self.bitmap@.len() == BITMAP_WORDS,
                forall|k: int| 0 <= k < i ==> self.bitmap@[k] == 0u64,
            decreases BITMAP_WORDS - i,
        {
            self.bitmap.set(i, 0);
            i = i + 1;
        }
        self.base = (pool_start + PAGE_SIZE as u64 - 1) & !(PAGE_SIZE as u64 - 1);
        self.free_count = TOTAL_FRAMES;
        proof {
            assert forall|f: int| 0 <= f < TOTAL_FRAMES implies !self.is_allocated(f) by {
                lemma_zero_word((f % 64) as u64);
            }
            assert(self.allocated() =~= Set::<int>::empty());
        }
    }

    /// Allocates the lowest free frame and returns its number, or `None` when no frame is free.
    pub fn alloc_frame(&mut self) -> (r: Option<usize>)
        requires
            old(self).wf(),
        ensures
            final(self).wf(),
            alloc_frame_post(*old(self), *final(self), r),
    {
        if self.free_count == 0 {
            return None;
        }
        proof {
            self.lemma_allocated_bounded();
        }
        let mut word_idx: usize = 0;
        while word_idx < BITMAP_WORDS
            invariant
                self.wf(),
                self.initialized(),
                self.free_count > 0,
                *self == *old(self),
                word_idx <= BITMAP_WORDS,
                forall|g: int| 0 <= g < word_idx * 64 && g < TOTAL_FRAMES ==> self.allocated().contains(g),
            decreases BITMAP_WORDS - word_idx,
        {
            let word = self.bitmap[word_idx];
            if word != u64::MAX {
                let bit_idx = word.trailing_ones() as usize;
                let frame = word_idx * 64 + bit_idx;
                if frame < TOTAL_FRAMES {
                    let ghost old_self = *self;
                    proof {
                        assert(!bit_set(word, bit_idx as int));
                        assert forall|g: int| 0 <= g < frame implies old_self.allocated().contains(g) by {
                            if g >= word_idx * 64 {
                                assert(g / 64 == word_idx as int);
                                assert(g % 64 == g - word_idx * 64);
                                let j = (g % 64) as u64;
                                assert(bit_set(word, j as int));
                            }
                        }
                        assert(frame / 64 == word_idx as int);
                        assert(frame % 64 == bit_idx as int);
                    }
                    self.bitmap.set(word_idx, word | (1u64 << bit_idx));
                    self.free_count = self.free_count - 1;
                    proof {
                        old_self.lemma_word_view(self, word_idx as int);
                        assert forall|f: int| #[trigger] self.allocated().contains(f) == old_self.allocated().insert(frame as int).contains(f) by {
                            if 0 <= f < TOTAL_FRAMES {
                                if f / 64 == word_idx {
                                    lemma_set_bit(word, bit_idx as u64, (f % 64) as u64);
                                    lemma_bit_is_zero_or_one(word, (f % 64) as u64);
                                    assert((f == frame) == (f % 64 == bit_idx));
                                    assert(self.bitmap@[f / 64] == word | (1u64 << bit_idx));
                                    assert(self.is_allocated(f) == (f == frame || old_self.is_allocated(f)));
                                } else {
                                    assert(self.is_allocated(f) == old_self.is_allocated(f));
                                }
                            }
                        }
                        assert(self.allocated() =~= old_self.allocated().insert(frame as int));
                        self.lemma_allocated_bounded();
                    }
                    return Some(frame);
                }
            }
            proof {
                assert forall|g: int| 0 <= g < (word_idx + 1) * 64 && g < TOTAL_FRAMES implies self.allocated().contains(g) by {
                    if g >= word_idx * 64 {
                        assert(g / 64 == word_idx as int);
                        let j = (g % 64) as u64;
                        assert(word == u64::MAX);
                        assert((0xffff_ffff_ffff_ffffu64 >> j) & 1u64 == 1u64) by (bit_vector)
                            requires j < 64;
                    }
                }
            }
            word_idx = word_idx + 1;
        }
        proof {
            lemma_int_range(0, TOTAL_FRAMES as int);
            assert(self.allocated() =~= set_int_range(0, TOTAL_FRAMES as int));
            assert(false);
        }
        None
    }

    /// Frees frame `frame`. Freeing a frame that is not allocated changes nothing.
    pub fn free_frame(&mut self, frame: usize)
        requires
            old(self).wf(),
            frame < TOTAL_FRAMES,
        ensures
            final(self).wf(),
            free_frame_post(*old(self), *final(self), frame),
    {
        let word_idx = frame / 64;
        let bit_idx = frame % 64;
        let word = self.bitmap[word_idx];
        proof {
            lemma_test_bit(word, bit_idx as u64);
            self.lemma_allocated_bounded();
        }
        if word & (1u64 << bit_idx) != 0 {
            let ghost old_self = *self;
            proof {
                assert(old_self.allocated().contains(frame as int));
                assert(old_self.allocated().len() >= 1) by {
                    assert(old_self.allocated().remove(frame as int).len() + 1 == old_self.allocated().len());
                }
            }
            self.bitmap.set(word_idx, word & !(1u64 << bit_idx));
            self.free_count = self.free_count + 1;
            proof {
                old_self.lemma_word_view(self, word_idx as int);
                assert forall|f: int| #[trigger] self.allocated().contains(f) == old_self.allocated().remove(frame as int).contains(f) by {
                    if 0 <= f < TOTAL_FRAMES {
                        if f / 64 == word_idx {
                            lemma_clear_bit(word, bit_idx as u64, (f % 64) as u64);
                            lemma_bit_is_zero_or_one(word, (f % 64) as u64);
                            assert((f == frame) == (f % 64 == bit_idx));
                            assert(self.is_allocated(f) == (f != frame && old_self.is_allocated(f)));
                        } else {
                            assert(self.is_allocated(f) == old_self.is_allocated(f));
                        }
                    }
                }
                assert(self.allocated() =~= old_self.allocated().remove(frame as int));
                self.lemma_allocated_bounded();
            }
        } else {
            proof {
                assert(!self.allocated().contains(frame as int));
                assert(self.allocated().remove(frame as int) =~= self.allocated());
            }
        }
    }

    /// Converts a frame number to its physical address.
    pub fn frame_to_phys(&self, frame: usize) -> (r: u64)
        requires
            frame * PAGE_SIZE <= usize::MAX,
            self.phys_of(frame as int) <= u64::MAX,
        ensures
            r == self.phys_of(frame as int),
    {
        self.base + (frame * PAGE_SIZE) as u64
    }

    /// Whether frame `frame` is allocated.
    pub fn is_frame_allocated(&self, frame: usize) -> (r: bool)
        requires
            self.wf(),
            frame < TOTAL_FRAMES,
        ensures
            r == self.allocated().contains(frame as int),
    {
        let word = self.bitmap[frame / 64];
        proof {
            lemma_test_bit(word, (frame % 64) as u64);
        }
        word & (1u64 << (frame % 64)) != 0
    }

    /// The number of free frames.
    pub fn free_count(&self) -> (r: usize)
        ensures
            r == self.spec_free_count(),
    {
        self.free_count
    }

    /// Converts a physical address back to a frame number, if it lies in the pool.
    pub fn phys_to_frame(&self, phys: u64) -> (r: Option<usize>)
        requires
            self.spec_base() + POOL_BYTES <= u64::MAX,
        ensures
            r == self.frame_of(phys as int),
    {
        if phys < self.base || phys >= self.base + (TOTAL_FRAMES * PAGE_SIZE) as u64 {
            return None;
        }
        Some(((phys - self.base) / PAGE_SIZE as u64) as usize)
    }
}



/// Initializes the kernel's frame pool from the memory summary (the pool instance itself is
/// owned, and locked, by the caller).
pub fn init(frames: &mut FrameAllocator, mem: &MemoryInfo)
    requires
        old(frames).wf(),
        mem.largest_usable_region_start + mem.largest_usable_region_size <= u64::MAX,
        mem.largest_usable_region_start + mem.largest_usable_region_size >= POOL_BYTES,
        mem.largest_usable_region_start + mem.largest_usable_region_size - POOL_BYTES + 4095 <= u64::MAX,
    ensures
        final(frames).wf(),
        final(frames).initialized(),
        final(frames).allocated() == Set::<int>::empty(),
        final(frames).spec_free_count() == TOTAL_FRAMES,
        final(frames).spec_base() == page_round_up(
            mem.largest_usable_region_start + mem.largest_usable_region_size - POOL_BYTES,
        ),
{
    frames.init(mem);
}

/// Allocates the lowest free frame of the kernel's pool.
pub fn alloc_frame(frames: &mut FrameAllocator) -> (r: Option<usize>)
    requires
        old(frames).wf(),
    ensures
        final(frames).wf(),
        alloc_frame_post(*old(frames), *final(frames), r),
{
    frames.alloc_frame()
}

/// Frees a frame of the kernel's pool.
pub fn free_frame(frames: &mut FrameAllocator, frame: usize)
    requires
        old(frames).wf(),
        frame < TOTAL_FRAMES,
    ensures
        final(frames).wf(),
        free_frame_post(*old(frames), *final(frames), frame),
{
    frames.free_frame(frame)
}

/// The number of free frames in the kernel's pool.
pub fn free_count(frames: &FrameAllocator) -> (r: usize)
    ensures
        r == frames.spec_free_count(),
{
    frames.free_count()
}

/// Physical address of a frame of the kernel's pool.
pub fn frame_to_phys(frames: &FrameAllocator, frame: usize) -> (r: u64)
    requires
        frame * PAGE_SIZE <= usize::MAX,
        frames.phys_of(frame as int) <= u64::MAX,
    ensures
        r == frames.phys_of(frame as int),
{
    frames.frame_to_phys(frame)
}

/// The frame of the kernel's pool that holds a physical address, if any.
pub fn phys_to_frame(frames: &FrameAllocator, phys: u64) -> (r: Option<usize>)
    requires
        frames.spec_base() + POOL_BYTES <= u64::MAX,
    ensures
        r == frames.frame_of(phys as int),
{
    frames.phys_to_frame(phys)
}

/// Every frame's physical address maps back to that frame.
pub proof fn law_phys_frame_roundtrip(frames: FrameAllocator, frame: int)
    requires
        0 <= frame < TOTAL_FRAMES,
    ensures
        frames.frame_of(frames.phys_of(frame)) == Some(frame as usize),
{
    assert((frame * PAGE_SIZE) / (PAGE_SIZE as int) == frame) by (nonlinear_arith)
        requires 0 <= frame;
    assert(frame * PAGE_SIZE < POOL_BYTES) by (nonlinear_arith)
        requires 0 <= frame < TOTAL_FRAMES;
}

/// Once initialized, the free count and the allocated frames always add up to the pool
/// size: an allocation keeps it so.
pub proof fn law_alloc_keeps_count(pre: FrameAllocator, post: FrameAllocator, r: Option<usize>)
    requires
        pre.initialized(),
        alloc_frame_post(pre, post, r),
    ensures
        post.spec_free_count() + post.allocated().len() == TOTAL_FRAMES,
{
}

/// Once initialized, the free count and the allocated frames always add up to the pool
/// size: freeing a frame keeps it so.
pub proof fn law_free_keeps_count(pre: FrameAllocator, post: FrameAllocator, frame: usize)
    requires
        pre.initialized(),
        free_frame_post(pre, post, frame),
    ensures
        post.spec_free_count() + post.allocated().len() == TOTAL_FRAMES,
{
}

/// Freeing the frame that an allocation returned gives back the state before it.
pub proof fn law_free_undoes_alloc(a0: FrameAllocator, a1: FrameAllocator, a2: FrameAllocator, frame: usize)
    requires
        alloc_frame_post(a0, a1, Some(frame)),
        free_frame_post(a1, a2, frame),
    ensures
        a2.allocated() == a0.allocated(),
        a2.spec_free_count() == a0.spec_free_count(),
        a2.spec_base() == a0.spec_base(),
{
    assert(a0.spec_free_count() > 0);
    assert(a1.allocated().contains(frame as int));
    assert(a2.allocated() =~= a0.allocated());
}

/// Two allocations in a row never hand out the same frame.
pub proof fn law_allocations_distinct(a0: FrameAllocator, a1: FrameAllocator, a2: FrameAllocator, f: usize, g: usize)
    requires
        alloc_frame_post(a0, a1, Some(f)),
        alloc_frame_post(a1, a2, Some(g)),
    ensures
        f != g,
{
    assert(a0.spec_free_count() > 0);
    assert(a1.allocated().contains(f as int));
    assert(a1.spec_free_count() > 0);
}

/// A frame that is allocated stays allocated, and is not handed out, until it is freed: an
/// allocation returns another frame, and freeing another frame leaves it allocated.
pub proof fn law_allocated_frame_kept(
    pre: FrameAllocator, post: FrameAllocator, r: Option<usize>, other: usize, frame: usize,
)
    requires
        pre.allocated().contains(frame as int),
        alloc_frame_post(pre, post, r) || (free_frame_post(pre, post, other) && other != frame),
    ensures
        post.allocated().contains(frame as int),
        alloc_frame_post(pre, post, r) && r is Some ==> r->0 != frame,
{
}

/// Freeing a frame twice is the same as freeing it once.
pub proof fn law_double_free_is_noop(a0: FrameAllocator, a1: FrameAllocator, a2: FrameAllocator, frame: usize)
    requires
        free_frame_post(a0, a1, frame),
        free_frame_post(a1, a2, frame),
    ensures
        a2 == a1,
{
    assert(!a1.allocated().contains(frame as int));
}

} // verus!
