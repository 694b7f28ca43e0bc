//! A plain FIFO page cache, the baseline that S3-FIFO is compared against.
use vstd::prelude::*;
use heapless::Deque;
use crate::frame_allocator::TOTAL_FRAMES;
use crate::queues::{fifo_items, fifo_new, fifo_len, fifo_push_back, fifo_pop_front};
use crate::s3fifo_model::{MAX_PAGES, lemma_pop_front, lemma_push_back};

verus! {

/// The pages after accessing `page`: a page outside the tracked range or already held leaves
/// them unchanged; any other page goes to the back, after the front page leaves when
/// `TOTAL_FRAMES` pages are held.
pub open spec fn fifo_access(items: Seq<usize>, page: usize) -> Seq<usize> {
    if page >= MAX_PAGES || items.contains(page) {
        items
    } else if items.len() >= TOTAL_FRAMES {
        items.skip(1).push(page)
    } else {
        items.push(page)
    }
}

/// Simple FIFO cache.
pub struct FifoCache {
    queue: Deque<usize, TOTAL_FRAMES>,
    /// Number of hits.
    pub hits: u64,
    /// Number of misses.
    pub misses: u64,
    in_cache: Vec<bool>,
}

impl FifoCache {
    /// The cached pages, oldest first.
    pub closed spec fn view(&self) -> Seq<usize> {
        fifo_items(self.queue)
    }

    /// Number of hits counted.
    pub closed spec fn spec_hits(&self) -> u64 {
        self.hits
    }

    /// Number of misses counted.
    pub closed spec fn spec_misses(&self) -> u64 {
        self.misses
    }

    /// The pages are distinct tracked pages, at most `TOTAL_FRAMES` of them, and the cached
    /// marks are exactly the pages held.
    pub closed spec fn wf(&self) -> bool {
        &&& self@.no_duplicates()
        &&& self@.len() <= TOTAL_FRAMES
        &&& self.in_cache@.len() == MAX_PAGES
        &&& forall|x: usize| self@.contains(x) ==> x < MAX_PAGES
        &&& forall|x: usize| x < MAX_PAGES ==> (self.in_cache@[x as int] == self@.contains(x))
    }

    /// An empty cache.
    pub fn new() -> (r: Self)
        ensures
            r.wf(),
            r@ == Seq::<usize>::empty(),
            r.spec_hits() == 0,
            r.spec_misses() == 0,
    {
        let mut in_cache: Vec<bool> = Vec::new();
        let mut i: usize = 0;
        while i < MAX_PAGES
            invariant
                i <= MAX_PAGES,
                in_cache@.len() == i,
                forall|p: int| 0 <= p < i ==> !in_cache@[p],
            decreases MAX_PAGES - i,
        {
            in_cache.push(false);
            i = i + 1;
        }
        FifoCache { queue: fifo_new(), hits: 0, misses: 0, in_cache }
    }

    /// Accesses a page; returns whether it was cached. Pages at or past `MAX_PAGES` are not
    /// cached and not counted.
    pub fn access(&mut self, page: usize) -> (hit: bool)
        requires
            old(self).wf(),
            page < MAX_PAGES && old(self)@.contains(page) ==> old(self).spec_hits() < u64::MAX,
            page < MAX_PAGES && !old(self)@.contains(page) ==> old(self).spec_misses() < u64::MAX,
        ensures
            final(self).wf(),
            hit == (page < MAX_PAGES && old(self)@.contains(page)),
            final(self)@ == fifo_access(old(self)@, page),
            final(self).spec_hits() == old(self).spec_hits() + if hit { 1int } else { 0int },
            final(self).spec_misses() == old(self).spec_misses() + if page < MAX_PAGES && !hit { 1int } else { 0int },
    {
        if page >= MAX_PAGES {
            return false;
        }
        if self.in_cache[page] {
            self.hits += 1;
            return true;
        }
        self.misses += 1;
        let ghost items = self@;
        if fifo_len(&self.queue) >= TOTAL_FRAMES {
            if let Some(evicted) = fifo_pop_front(&mut self.queue) {
                proof {
                    assert(items.contains(evicted));
                    lemma_pop_front(items);
                }
                self.in_cache.set(evicted, false);
            }
        }
        let ghost mid = self@;
        proof {
            if items.len() >= TOTAL_FRAMES {
                assert(mid == items.skip(1));
            } else {
                assert(mid == items);
            }
            lemma_push_back(mid, page);
        }
        let _ = fifo_push_back(&mut self.queue, page);
        self.in_cache.set(page, true);
        proof {
            assert(!items.contains(page));
            if items.len() >= TOTAL_FRAMES {
                lemma_pop_front(items);
                assert(items.contains(items[0]));
            }
            assert forall|x: usize| self@.contains(x) implies x < MAX_PAGES by {
                if x != page {
                    assert(mid.contains(x));
                    assert(items.contains(x));
                }
            }
            assert forall|x: usize| x < MAX_PAGES implies (self.in_cache@[x as int] == self@.contains(x)) by {
                if x != page {
                    assert(self@.contains(x) == mid.contains(x));
                    if items.len() >= TOTAL_FRAMES {
                        assert(mid.contains(x) == (items.contains(x) && x != items[0]));
                    }
                }
            }
        }
        false
    }
}

/// A miss on a full FIFO cache evicts exactly the oldest page and keeps the cache full; a miss
/// below capacity evicts nothing; a hit or an untracked page changes nothing.
pub proof fn law_fifo_miss(items: Seq<usize>, page: usize)
    requires
        items.no_duplicates(),
        items.len() <= TOTAL_FRAMES,
    ensures
        page >= MAX_PAGES || items.contains(page) ==> fifo_access(items, page) == items,
        page < MAX_PAGES && !items.contains(page) && items.len() == TOTAL_FRAMES ==> {
            &&& fifo_access(items, page).len() == TOTAL_FRAMES
            &&& forall|x: usize| fifo_access(items, page).contains(x) <==> ((items.contains(x) && x != items[0]) || x == page)
        },
        page < MAX_PAGES && !items.contains(page) && items.len() < TOTAL_FRAMES ==> {
            &&& fifo_access(items, page).len() == items.len() + 1
            &&& forall|x: usize| fifo_access(items, page).contains(x) <==> (items.contains(x) || x == page)
        },
{
    if page < MAX_PAGES && !items.contains(page) {
        if items.len() == TOTAL_FRAMES {
            lemma_pop_front(items);
            lemma_push_back(items.skip(1), page);
        } else {
            lemma_push_back(items, page);
        }
    }
}

/// A FIFO cache never holds more than `TOTAL_FRAMES` pages, and a tracked page is held after
/// it is accessed.
pub proof fn law_fifo_bounded(items: Seq<usize>, page: usize)
    requires
        items.len() <= TOTAL_FRAMES,
    ensures
        fifo_access(items, page).len() <= TOTAL_FRAMES,
        page < MAX_PAGES ==> fifo_access(items, page).contains(page),
{
    if page < MAX_PAGES && !items.contains(page) {
        let r = fifo_access(items, page);
        assert(r[r.len() - 1] == page);
    }
}

} // verus!
