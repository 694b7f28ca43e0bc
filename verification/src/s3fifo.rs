//! S3-FIFO page replacement (SOSP 2023, simplified): a small probation queue S and a main
//! queue M, with a 2-bit access counter (0..=3) per page.
use vstd::prelude::*;
use heapless::Deque;
use crate::frame_allocator::TOTAL_FRAMES;
use crate::queues::{
    S_CAP, M_CAP, small_items, small_new, small_len, small_is_full, small_push_back,
    small_pop_front, main_items, main_new, main_len, main_push_back, main_pop_front,
};
use crate::s3fifo_model::{
    CacheState, MAX_PAGES, initial_state, queues_ok, cache_exact, evict, law_evict, law_access_exact, law_initial_exact, queued, total, seq_sum, access, insert, evict_one,
    evict_main, evict_pops, main_pops, lemma_evict_one, law_access_caches_page, lemma_access_room, lemma_evict_main, lemma_small_step,
    lemma_seq_sum_decrement,
};
use crate::ring_buffer::{EventRing, ring_push};
use crate::events::{EventType, log_event, make_event};

verus! {

/// An S3-FIFO page cache.
pub struct S3Fifo {
    s_queue: Deque<usize, S_CAP>,
    m_queue: Deque<usize, M_CAP>,
    /// Access counter per page (0..=3).
    access_count: Vec<u8>,
    /// Whether a page is currently cached.
    in_cache: Vec<bool>,
    /// Number of hits.
    pub hits: u64,
    /// Number of misses.
    pub misses: u64,
}

/// The event ring after an access that evicted `ev`, if any: a page eviction is logged.
pub open spec fn ring_after_access(events: Seq<crate::ring_buffer::Event>, ev: Option<usize>) -> Seq<crate::ring_buffer::Event> {
    match ev {
        Some(v) => ring_push(events, make_event(EventType::PageEvict.spec_code(), v as u64, 0, 0)),
        None => events,
    }
}

impl S3Fifo {
    /// The cache's queues, counters and cached marks.
    pub closed spec fn view(&self) -> CacheState {
        CacheState {
            s: small_items(self.s_queue),
            m: main_items(self.m_queue),
            counts: self.access_count@,
            cached: self.in_cache@,
        }
    }

    /// Number of hits counted.
    pub closed spec fn spec_hits(&self) -> u64 {
        self.hits
    }

    /// Number of misses counted.
    pub closed spec fn spec_misses(&self) -> u64 {
        self.misses
    }

    /// The cache invariant holds: distinct pages within the queues' capacities, counters
    /// within 0..=3, and a page is marked cached exactly when a queue holds it.
    pub open spec fn wf(&self) -> bool {
        cache_exact(self@)
    }

    /// An empty cache: no page cached, all counters zero, no hits or misses.
    pub fn new() -> (r: Self)
        ensures
            r.wf(),
            r@ == initial_state(),
            r.spec_hits() == 0,
            r.spec_misses() == 0,
    {
        let mut access_count: Vec<u8> = Vec::new();
        let mut in_cache: Vec<bool> = Vec::new();
        let mut i: usize = 0;
        while i < MAX_PAGES
            invariant
                i <= MAX_PAGES,
                access_count@.len() == i,
                in_cache@.len() == i,
                forall|p: int| 0 <= p < i ==> access_count@[p] == 0 && !in_cache@[p],
            decreases MAX_PAGES - i,
        {
            access_count.push(0);
            in_cache.push(false);
            i = i + 1;
        }
        let r = S3Fifo {
            s_queue: small_new(),
            m_queue: main_new(),
            access_count,
            in_cache,
            hits: 0,
            misses: 0,
        };
        proof {
            law_initial_exact();
            assert(r@.counts =~= initial_state().counts);
            assert(r@.cached =~= initial_state().cached);
            assert forall|x: usize| #[trigger] queued(r@, x) implies x < MAX_PAGES && r@.cached[x as int] by {
                assert(!r@.s.contains(x));
                assert(!r@.m.contains(x));
            }
        }
        r
    }

    /// Accesses a page and returns whether it was a hit (already cached). A hit raises the
    /// page's counter (at most 3); a miss inserts the page, evicting one page when the cache
    /// holds `TOTAL_FRAMES` pages, and logs that eviction.
    pub fn access(&mut self, frame: usize, events: &mut EventRing) -> (hit: bool)
        requires
            old(self).wf(),
            old(events).wf(),
            frame < MAX_PAGES,
            old(self)@.cached[frame as int] ==> old(self).spec_hits() < u64::MAX,
            !old(self)@.cached[frame as int] ==> old(self).spec_misses() < u64::MAX,
        ensures
            final(self).wf(),
            final(events).wf(),
            hit == old(self)@.cached[frame as int],
            final(self)@ == access(old(self)@, frame).0,
            hit ==> final(self).spec_hits() == old(self).spec_hits() + 1 && final(self).spec_misses() == old(self).spec_misses(),
            !hit ==> final(self).spec_misses() == old(self).spec_misses() + 1 && final(self).spec_hits() == old(self).spec_hits(),
            final(events)@ == ring_after_access(old(events)@, access(old(self)@, frame).2),
    {
        proof {
            law_access_caches_page(self@, frame);
            law_access_exact(self@, frame);
        }
        if self.in_cache[frame] {
            if self.access_count[frame] < 3 {
                let c = self.access_count[frame];
                self.access_count.set(frame, c + 1);
            }
            self.hits += 1;
            true
        } else {
            self.misses += 1;
            self.insert(frame, events);
            false
        }
    }

    /// Inserts a page that is not cached; evicts one page first when the cache is full (and
    /// logs it), or promotes the small queue's front page when only the small queue is full.
    fn insert(&mut self, frame: usize, events: &mut EventRing)
        requires
            old(self).wf(),
            old(events).wf(),
            frame < MAX_PAGES,
            !old(self)@.cached[frame as int],
        ensures
            final(self).wf(),
            final(events).wf(),
            final(self)@ == insert(old(self)@, frame).0,
            final(self).spec_hits() == old(self).spec_hits(),
            final(self).spec_misses() == old(self).spec_misses(),
            final(events)@ == ring_after_access(old(events)@, insert(old(self)@, frame).1),
    {
        let ghost st = self@;
        proof {
            law_access_caches_page(st, frame);
            law_access_exact(st, frame);
        }
        let total = small_len(&self.s_queue) + main_len(&self.m_queue);
        if total >= TOTAL_FRAMES {
            proof {
                lemma_evict_one(st);
            }
            let (evicted, _) = self.evict_one();
            let ghost st2 = self@;
            self.in_cache.set(evicted, false);
            self.access_count.set(evicted, 0);
            proof {
                assert(self@.counts =~= st2.counts);
            }
            log_event(events, EventType::PageEvict.code(), evicted as u64, 0, 0);
        } else if small_is_full(&self.s_queue) {
            self.promote_s_to_m();
        }
        proof {
            lemma_access_room(st, frame);
        }
        let _ = small_push_back(&mut self.s_queue, frame);
        self.in_cache.set(frame, true);
        self.access_count.set(frame, 0);
    }

    /// Moves the small queue's front page to the back of the main queue (the page is dropped
    /// when the main queue is full); nothing happens when the small queue is empty.
    fn promote_s_to_m(&mut self)
        ensures
            final(self)@.counts == old(self)@.counts,
            final(self)@.cached == old(self)@.cached,
            final(self).spec_hits() == old(self).spec_hits(),
            final(self).spec_misses() == old(self).spec_misses(),
            old(self)@.s.len() == 0 ==> final(self)@ == old(self)@,
            old(self)@.s.len() > 0 ==> {
                &&& final(self)@.s == old(self)@.s.skip(1)
                &&& final(self)@.m == if old(self)@.m.len() < M_CAP {
                    old(self)@.m.push(old(self)@.s[0])
                } else {
                    old(self)@.m
                }
            },
    {
        if let Some(frame) = small_pop_front(&mut self.s_queue) {
            let _ = main_push_back(&mut self.m_queue, frame);
        }
    }

    /// Evicts one page following S3-FIFO and returns it (see `s3fifo_model::evict_one`),
    /// with the number of queue pops it made: `evict_pops`, at most `4 * (|S| + |M|) + 1`
    /// (`law_evict_pops_bounded`).
    fn evict_one(&mut self) -> (r: (usize, Ghost<nat>))
        requires
            queues_ok(old(self)@),
            total(old(self)@) > 0,
        ensures
            (final(self)@, r.0) == evict_one(old(self)@),
            r.1@ == evict_pops(old(self)@),
            final(self).spec_hits() == old(self).spec_hits(),
            final(self).spec_misses() == old(self).spec_misses(),
    {
        let ghost mut pops: nat = 0;
        loop
            invariant
                queues_ok(self@),
                total(self@) > 0,
                evict_one(self@) == evict_one(old(self)@),
                pops + evict_pops(self@) == evict_pops(old(self)@),
                self.hits == old(self).hits,
                self.misses == old(self).misses,
            ensures
                queues_ok(self@),
                total(self@) > 0,
                self@.s.len() == 0,
                evict_one(self@) == evict_one(old(self)@),
                pops + evict_pops(self@) == evict_pops(old(self)@),
                self.hits == old(self).hits,
                self.misses == old(self).misses,
            decreases small_items(self.s_queue).len(),
        {
            let ghost st = self@;
            match small_pop_front(&mut self.s_queue) {
                Some(frame) => {
                    proof {
                        assert(st.s.contains(frame));
                        assert(queued(st, frame));
                    }
                    if self.access_count[frame] > 0 {
                        proof {
                            lemma_small_step(st);
                        }
                        let c = self.access_count[frame];
                        self.access_count.set(frame, c - 1);
                        let pushed = main_push_back(&mut self.m_queue, frame);
                        if pushed.is_err() {
                            let ghost mid = self@;
                            proof {
                                assert forall|x: usize| mid.m.contains(x) implies x < MAX_PAGES by {
                                    assert(queued(mid, x));
                                }
                                lemma_evict_main(mid);
                            }
                            let (evicted, m_pops) = self.evict_from_m();
                            self.in_cache.set(evicted, false);
                            self.access_count.set(evicted, 0);
                            let _ = main_push_back(&mut self.m_queue, frame);
                            return (evicted, Ghost(pops + 1 + m_pops@));
                        }
                        proof {
                            pops = pops + 1;
                        }
                    } else {
                        return (frame, Ghost(pops + 1));
                    }
                }
                None => {
                    break;
                }
            }
        }
        proof {
            let st = self@;
            assert forall|x: usize| st.m.contains(x) implies x < MAX_PAGES by {
                assert(queued(st, x));
            }
        }
        let (v, m_pops) = self.evict_from_m();
        (v, Ghost(pops + m_pops@))
    }

    /// Scans the main queue for a page to evict: pages with a positive counter have it
    /// decremented and go back to the end; the first page with a zero counter is evicted.
    /// Also returns the number of queue pops made (`main_pops`).
    fn evict_from_m(&mut self) -> (r: (usize, Ghost<nat>))
        requires
            main_items(old(self).m_queue).len() > 0,
            old(self)@.m.len() <= M_CAP,
            old(self)@.counts.len() == MAX_PAGES,
            forall|x: usize| old(self)@.m.contains(x) ==> x < MAX_PAGES,
        ensures
            (final(self)@, r.0) == evict_main(old(self)@),
            r.1@ == main_pops(old(self)@),
            final(self).spec_hits() == old(self).spec_hits(),
            final(self).spec_misses() == old(self).spec_misses(),
    {
        let ghost mut pops: nat = 0;
        proof {
            let m = old(self)@.m;
            assert forall|i: int| 0 <= i < m.len() implies m[i] < MAX_PAGES by {
                assert(m.contains(m[i]));
            }
        }
        loop
            invariant
                self@.m.len() > 0,
                self@.m.len() <= M_CAP,
                self@.counts.len() == MAX_PAGES,
                forall|i: int| 0 <= i < self@.m.len() ==> self@.m[i] < MAX_PAGES,
                evict_main(self@) == evict_main(old(self)@),
                pops + main_pops(self@) == main_pops(old(self)@),
                self.hits == old(self).hits,
                self.misses == old(self).misses,
            decreases seq_sum(self@.counts),
        {
            let ghost st = self@;
            if let Some(frame) = main_pop_front(&mut self.m_queue) {
                if self.access_count[frame] > 0 {
                    proof {
                        lemma_seq_sum_decrement(st.counts, frame as int);
                    }
                    let c = self.access_count[frame];
                    self.access_count.set(frame, c - 1);
                    let _ = main_push_back(&mut self.m_queue, frame);
                    proof {
                        assert(self@.m =~= st.m.skip(1).push(frame));
                        pops = pops + 1;
                    }
                } else {
                    return (frame, Ghost(pops + 1));
                }
            }
        }
    }

    /// Current lengths of the small and the main queue.
    pub fn stats(&self) -> (r: (usize, usize))
        ensures
            r.0 == self@.s.len(),
            r.1 == self@.m.len(),
    {
        (small_len(&self.s_queue), main_len(&self.m_queue))
    }

    /// Whether a page is marked cached.
    pub fn is_cached(&self, page: usize) -> (r: bool)
        requires
            self.wf(),
            page < MAX_PAGES,
        ensures
            r == self@.cached[page as int],
    {
        self.in_cache[page]
    }

    /// Clears the hit and miss counts.
    pub fn reset_stats(&mut self)
        ensures
            final(self)@ == old(self)@,
            final(self).spec_hits() == 0,
            final(self).spec_misses() == 0,
    {
        self.hits = 0;
        self.misses = 0;
    }
}

/// Records an access of a user page in the kernel's page cache (owned by the caller).
pub fn access_global(cache: &mut S3Fifo, vpage: u64, events: &mut EventRing)
    requires
        old(cache).wf(),
        old(events).wf(),
        vpage < MAX_PAGES,
        old(cache)@.cached[vpage as int] ==> old(cache).spec_hits() < u64::MAX,
        !old(cache)@.cached[vpage as int] ==> old(cache).spec_misses() < u64::MAX,
    ensures
        final(cache).wf(),
        final(events).wf(),
        final(cache)@ == access(old(cache)@, vpage as usize).0,
        old(cache)@.cached[vpage as int] ==> final(cache).spec_hits() == old(cache).spec_hits() + 1 && final(cache).spec_misses() == old(cache).spec_misses(),
        !old(cache)@.cached[vpage as int] ==> final(cache).spec_misses() == old(cache).spec_misses() + 1 && final(cache).spec_hits() == old(cache).spec_hits(),
        final(events)@ == ring_after_access(old(events)@, access(old(cache)@, vpage as usize).2),
{
    cache.access(vpage as usize, events);
}

/// Evicts one page from the kernel's page cache and returns it: the page leaves the queues,
/// is no longer marked cached and its counter is reset (see `s3fifo_model::evict`). The
/// eviction pops the queues at most `4 * (|S| + |M|) + 1` times (`law_evict_pops_bounded`).
pub fn evict_one_global(cache: &mut S3Fifo) -> (r: u64)
    requires
        old(cache).wf(),
        total(old(cache)@) > 0,
    ensures
        final(cache).wf(),
        r < MAX_PAGES,
        r == evict(old(cache)@).1,
        final(cache)@ == evict(old(cache)@).0,
        final(cache).spec_hits() == old(cache).spec_hits(),
        final(cache).spec_misses() == old(cache).spec_misses(),
{
    proof {
        lemma_evict_one(cache@);
        law_evict(cache@);
    }
    let (evicted, _) = cache.evict_one();
    cache.in_cache.set(evicted, false);
    cache.access_count.set(evicted, 0);
    evicted as u64
}

} // verus!
