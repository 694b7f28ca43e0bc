//! Access patterns for comparing the page caches, and the side-by-side comparison run.
use vstd::prelude::*;
use heapless::Vec as HVec;
use crate::fifo_cache::{FifoCache, fifo_access};
use crate::s3fifo::{S3Fifo, ring_after_access};
use crate::s3fifo_model::{CacheState, MAX_PAGES, initial_state, access, law_access_caches_page};
use crate::ring_buffer::{Event, EventRing};

verus! {

/// Capacity of a generated access pattern.
pub const PATTERN_CAP: usize = 1024;

/// Multiplier of the linear congruential generator.
pub const LCG_MUL: u64 = 6364136223846793005;

/// Increment of the linear congruential generator.
pub const LCG_INC: u64 = 1442695040888963407;

#[verifier::external_type_specification]
#[verifier::external_body]
#[verifier::reject_recursive_types(T)]
pub struct ExHVec<T, const N: usize>(HVec<T, N>);

/// The pages held by an access pattern, in order.
pub uninterp spec fn pattern_items(v: HVec<usize, PATTERN_CAP>) -> Seq<usize>;

/// heapless `Vec::new` at the pattern capacity: an empty vector.
#[verifier::external_body]
fn pattern_new() -> (v: HVec<usize, PATTERN_CAP>)
    ensures
        pattern_items(v) == Seq::<usize>::empty(),
{
    HVec::new()
}

/// heapless `Vec::push`: appends the item, or hands it back unchanged when full.
#[verifier::external_body]
fn pattern_push(v: &mut HVec<usize, PATTERN_CAP>, item: usize) -> (r: crate::queues::PushResult)
    ensures
        pattern_items(*old(v)).len() < PATTERN_CAP ==> r is Ok && pattern_items(*final(v)) == pattern_items(*old(v)).push(item),
        pattern_items(*old(v)).len() >= PATTERN_CAP ==> r == crate::queues::PushResult::Err(item) && pattern_items(*final(v)) == pattern_items(*old(v)),
{
    v.push(item)
}

/// One step of the generator.
pub open spec fn lcg_step(state: u64) -> u64 {
    vstd::wrapping::u64_specs::wrapping_add(vstd::wrapping::u64_specs::wrapping_mul(state, LCG_MUL), LCG_INC)
}

/// The generator's state after `k` steps from `state`.
pub open spec fn lcg_iter(state: u64, k: nat) -> u64
    decreases k,
{
    if k == 0 {
        state
    } else {
        lcg_step(lcg_iter(state, (k - 1) as nat))
    }
}

/// Simple linear congruential pseudo-random number generator.
pub struct Lcg {
    state: u64,
}

impl Lcg {
    /// The generator's state.
    pub closed spec fn spec_state(&self) -> u64 {
        self.state
    }

    /// A generator seeded with `seed`.
    pub fn new(seed: u64) -> (r: Self)
        ensures
            r.spec_state() == seed,
    {
        Lcg { state: seed }
    }

    /// Advances the generator and returns its new state.
    pub fn next(&mut self) -> (r: u64)
        ensures
            r == lcg_step(old(self).spec_state()),
            final(self).spec_state() == r,
    {
        self.state = self.state.wrapping_mul(LCG_MUL).wrapping_add(LCG_INC);
        self.state
    }
}

/// The first `n` values of a uniformly random pattern below `max_page`, from generator state
/// `state`: each value is a generator output modulo `max_page`.
pub open spec fn random_values(state: u64, n: nat, max_page: usize) -> Seq<usize> {
    Seq::new(n, |i: int| ((lcg_iter(state, (i + 1) as nat) as usize) % max_page) as usize)
}

/// Every page of a random pattern lies below `max_page`, and the pattern follows the
/// generator's outputs one per page.
pub proof fn law_random_pages(state: u64, n: nat, max_page: usize, i: int)
    requires
        max_page > 0,
        0 <= i < n,
    ensures
        random_values(state, n, max_page)[i] < max_page,
        random_values(state, n, max_page)[i] == (lcg_iter(state, (i + 1) as nat) as usize) % max_page,
        lcg_iter(state, (i + 1) as nat) == lcg_step(lcg_iter(state, i as nat)),
{
}

/// A random access pattern of `n` pages below `max_page` (at most `PATTERN_CAP` are kept).
pub fn random_pattern(rng: &mut Lcg, n: usize, max_page: usize) -> (v: HVec<usize, PATTERN_CAP>)
    requires
        n > 0 ==> max_page > 0,
    ensures
        pattern_items(v) == random_values(old(rng).spec_state(), n as nat, max_page).take(
            vstd::math::min(n as int, PATTERN_CAP as int),
        ),
        final(rng).spec_state() == lcg_iter(old(rng).spec_state(), n as nat),
{
    let ghost s0 = rng.spec_state();
    let mut v: HVec<usize, PATTERN_CAP> = pattern_new();
    let mut i: usize = 0;
    while i < n
        invariant
            n > 0 ==> max_page > 0,
            i <= n,
            rng.spec_state() == lcg_iter(s0, i as nat),
            pattern_items(v) == random_values(s0, n as nat, max_page).take(vstd::math::min(i as int, PATTERN_CAP as int)),
        decreases n - i,
    {
        let r = rng.next();
        let _ = pattern_push(&mut v, (r as usize) % max_page);
        proof {
            assert(r == lcg_iter(s0, (i + 1) as nat));
            assert(pattern_items(v) =~= random_values(s0, n as nat, max_page).take(
                vstd::math::min(i + 1, PATTERN_CAP as int),
            ));
        }
        i = i + 1;
    }
    v
}

/// One element of a hotspot pattern drawn from generator state `state`: the next output
/// decides (below 80 of 100) between a hot page (below `hot_count`) and a cold page (from
/// `hot_count` up to `max_page`), which the output after it picks. Returns the state after
/// the two draws and the page.
pub open spec fn hotspot_step(state: u64, hot_count: usize, max_page: usize) -> (u64, usize) {
    let a = lcg_step(state);
    let b = lcg_step(a);
    if a % 100 < 80 {
        (b, ((b as usize) % hot_count) as usize)
    } else {
        (b, (hot_count + (b as usize) % ((max_page - hot_count) as usize)) as usize)
    }
}

/// A hotspot draw is a hot page (below `hot_count`) when the first output of the two is below
/// 80 modulo 100, and a cold page (from `hot_count` up to `max_page`) otherwise.
pub proof fn law_hotspot_draw(state: u64, hot_count: usize, max_page: usize)
    requires
        0 < hot_count < max_page,
    ensures
        lcg_step(state) % 100 < 80 ==> hotspot_step(state, hot_count, max_page).1 < hot_count,
        lcg_step(state) % 100 >= 80 ==> hot_count <= hotspot_step(state, hot_count, max_page).1 < max_page,
        hotspot_step(state, hot_count, max_page).0 == lcg_step(lcg_step(state)),
{
}

/// Every page of a hotspot pattern lies below `max_page`; a page is hot exactly when its draw
/// was a hot one.
pub proof fn law_hotspot_pages(hot_count: usize, max_page: usize, n: nat, i: int)
    requires
        0 < hot_count < max_page,
        0 <= i < n,
    ensures
        hotspot_values(42, hot_count, max_page, n)[i] < max_page,
        (hotspot_values(42, hot_count, max_page, n)[i] < hot_count)
            == (lcg_step(hotspot_state(42, hot_count, max_page, i as nat)) % 100 < 80),
    decreases n,
{
    lemma_hotspot_next(hot_count, max_page, (n - 1) as nat);
    lemma_hotspot_len(hot_count, max_page, (n - 1) as nat);
    law_hotspot_draw(hotspot_state(42, hot_count, max_page, (n - 1) as nat), hot_count, max_page);
    if i < n - 1 {
        law_hotspot_pages(hot_count, max_page, (n - 1) as nat, i);
    }
}

/// The first `n` pages of a hotspot pattern from generator state `state`.
#[verifier::opaque]
pub open spec fn hotspot_values(state: u64, hot_count: usize, max_page: usize, n: nat) -> Seq<usize>
    decreases n,
{
    if n == 0 {
        Seq::empty()
    } else {
        let prev = hotspot_values(state, hot_count, max_page, (n - 1) as nat);
        prev.push(hotspot_step(hotspot_state(state, hot_count, max_page, (n - 1) as nat), hot_count, max_page).1)
    }
}

/// The generator state after drawing `n` hotspot pages from `state`.
#[verifier::opaque]
pub open spec fn hotspot_state(state: u64, hot_count: usize, max_page: usize, n: nat) -> u64
    decreases n,
{
    if n == 0 {
        state
    } else {
        hotspot_step(hotspot_state(state, hot_count, max_page, (n - 1) as nat), hot_count, max_page).0
    }
}

proof fn lemma_hotspot_len(hot_count: usize, max_page: usize, i: nat)
    ensures
        hotspot_values(42, hot_count, max_page, i).len() == i,
    decreases i,
{
    reveal(hotspot_values);
    if i > 0 {
        lemma_hotspot_len(hot_count, max_page, (i - 1) as nat);
    }
}

proof fn lemma_hotspot_next(hot_count: usize, max_page: usize, i: nat)
    ensures
        hotspot_values(42, hot_count, max_page, i + 1) == hotspot_values(42, hot_count, max_page, i).push(
            hotspot_step(hotspot_state(42, hot_count, max_page, i), hot_count, max_page).1,
        ),
        hotspot_state(42, hot_count, max_page, i + 1)
            == hotspot_step(hotspot_state(42, hot_count, max_page, i), hot_count, max_page).0,
        hotspot_values(42, hot_count, max_page, 0) == Seq::<usize>::empty(),
        hotspot_state(42, hot_count, max_page, 0) == 42,
{
    reveal(hotspot_values);
    reveal(hotspot_state);
}

/// Keeping the first `cap` items of a sequence that grows by one element.
proof fn lemma_take_push(prev: Seq<usize>, x: usize, cap: int)
    requires
        cap >= 0,
    ensures
        (if vstd::math::min(prev.len() as int, cap) < cap {
            prev.take(vstd::math::min(prev.len() as int, cap)).push(x)
        } else {
            prev.take(vstd::math::min(prev.len() as int, cap))
        }) == prev.push(x).take(vstd::math::min(prev.len() + 1int, cap)),
{
    if prev.len() < cap {
        assert(prev.take(prev.len() as int).push(x) =~= prev.push(x).take(prev.len() + 1int));
    } else {
        assert(prev.take(cap) =~= prev.push(x).take(cap));
    }
}

/// A hotspot pattern: 80% of `n` accesses go to the `hot_count` hot pages, the rest to the
/// pages from `hot_count` up to `max_page`; the generator is seeded with 42. At most
/// `PATTERN_CAP` pages are kept.
pub fn hotspot_pattern(hot_count: usize, n: usize, max_page: usize) -> (v: HVec<usize, PATTERN_CAP>)
    requires
        n > 0 ==> 0 < hot_count < max_page,
    ensures
        pattern_items(v) == hotspot_values(42, hot_count, max_page, n as nat).take(
            vstd::math::min(n as int, PATTERN_CAP as int),
        ),
{
    let mut v: HVec<usize, PATTERN_CAP> = pattern_new();
    let mut rng = Lcg::new(42);
    proof {
        lemma_hotspot_next(hot_count, max_page, 0);
    }
    let mut i: usize = 0;
    while i < n
        invariant
            n > 0 ==> 0 < hot_count < max_page,
            i <= n,
            rng.spec_state() == hotspot_state(42, hot_count, max_page, i as nat),
            pattern_items(v) == hotspot_values(42, hot_count, max_page, i as nat).take(
                vstd::math::min(i as int, PATTERN_CAP as int),
            ),
        decreases n - i,
    {
        let ghost st = rng.spec_state();
        let ghost step = hotspot_step(st, hot_count, max_page);
        let ghost prev = hotspot_values(42, hot_count, max_page, i as nat);
        let ghost next = hotspot_values(42, hot_count, max_page, (i + 1) as nat);
        proof {
            lemma_hotspot_next(hot_count, max_page, i as nat);
            assert(prev.len() == i) by {
                lemma_hotspot_len(hot_count, max_page, i as nat);
            }
            lemma_take_push(prev, step.1, PATTERN_CAP as int);
        }
        let a = rng.next();
        if (a % 100) < 80 {
            let r = rng.next();
            let page = (r as usize) % hot_count;
            assert(page == step.1 && r == step.0);
            let _ = pattern_push(&mut v, page);
        } else {
            let r = rng.next();
            let page = hot_count + (r as usize) % (max_page - hot_count);
            assert(page == step.1 && r == step.0);
            let _ = pattern_push(&mut v, page);
        }
        i = i + 1;
    }
    v
}

/// A cyclic sequential scan: access `i` is page `i % max_page`. At most `PATTERN_CAP` pages
/// are kept.
pub fn sequential_pattern(n: usize, max_page: usize) -> (v: HVec<usize, PATTERN_CAP>)
    requires
        n > 0 ==> max_page > 0,
    ensures
        pattern_items(v) == Seq::new(
            vstd::math::min(n as int, PATTERN_CAP as int) as nat,
            |i: int| (i % (max_page as int)) as usize,
        ),
{
    let mut v: HVec<usize, PATTERN_CAP> = pattern_new();
    let mut i: usize = 0;
    while i < n
        invariant
            n > 0 ==> max_page > 0,
            i <= n,
            pattern_items(v) == Seq::new(
                vstd::math::min(i as int, PATTERN_CAP as int) as nat,
                |k: int| (k % (max_page as int)) as usize,
            ),
        decreases n - i,
    {
        let _ = pattern_push(&mut v, i % max_page);
        proof {
            assert(pattern_items(v) =~= Seq::new(
                vstd::math::min(i + 1, PATTERN_CAP as int) as nat,
                |k: int| (k % (max_page as int)) as usize,
            ));
        }
        i = i + 1;
    }
    v
}

/// The FIFO cache's pages and hit count after accessing `pages` in order, from `items` and
/// `hits`.
pub open spec fn fifo_run(items: Seq<usize>, hits: nat, pages: Seq<usize>) -> (Seq<usize>, nat)
    decreases pages.len(),
{
    if pages.len() == 0 {
        (items, hits)
    } else {
        let p = pages[0];
        let hit = p < MAX_PAGES && items.contains(p);
        fifo_run(fifo_access(items, p), hits + if hit { 1nat } else { 0nat }, pages.skip(1))
    }
}

/// The S3-FIFO cache's state, hit count and event log after accessing `pages` in order.
pub open spec fn s3_run(st: CacheState, hits: nat, events: Seq<Event>, pages: Seq<usize>) -> (CacheState, nat, Seq<Event>)
    decreases pages.len(),
{
    if pages.len() == 0 {
        (st, hits, events)
    } else {
        let (st1, hit, ev) = access(st, pages[0]);
        s3_run(st1, hits + if hit { 1nat } else { 0nat }, ring_after_access(events, ev), pages.skip(1))
    }
}

/// Runs the same page accesses through a fresh FIFO cache and a fresh S3-FIFO cache and
/// returns both caches, whose hit counts compare the two policies. S3-FIFO evictions are logged.
pub fn compare(pages: &[usize], events: &mut EventRing) -> (r: (FifoCache, S3Fifo))
    requires
        old(events).wf(),
        forall|i: int| 0 <= i < pages@.len() ==> pages@[i] < MAX_PAGES,
        pages@.len() < u64::MAX,
    ensures
        final(events).wf(),
        r.0.wf(),
        r.1.wf(),
        r.0.spec_hits() + r.0.spec_misses() == pages@.len(),
        r.1.spec_hits() + r.1.spec_misses() == pages@.len(),
        (r.0@, r.0.spec_hits() as nat) == fifo_run(Seq::empty(), 0, pages@),
        ({
            let (st, hits, log) = s3_run(initial_state(), 0, old(events)@, pages@);
            &&& r.1@ == st
            &&& r.1.spec_hits() == hits
            &&& final(events)@ == log
        }),
{
    let mut fifo = FifoCache::new();
    let mut s3 = S3Fifo::new();
    proof {
        assert(s3@ == initial_state());
    }
    let ghost pages0 = pages@;
    let ghost ev0 = events@;
    proof {
        assert(pages0.skip(0) =~= pages0);
    }
    let mut i: usize = 0;
    while i < pages.len()
        invariant
            i <= pages@.len(),
            pages@ == pages0,
            pages@.len() < u64::MAX,
            forall|k: int| 0 <= k < pages@.len() ==> pages@[k] < MAX_PAGES,
            fifo.wf(),
            s3.wf(),
            events.wf(),
            fifo.spec_hits() + fifo.spec_misses() == i,
            s3.spec_hits() + s3.spec_misses() == i,
            fifo_run(fifo@, fifo.spec_hits() as nat, pages0.skip(i as int)) == fifo_run(Seq::empty(), 0, pages0),
            s3_run(s3@, s3.spec_hits() as nat, events@, pages0.skip(i as int))
                == s3_run(initial_state(), 0, ev0, pages0),
        decreases pages@.len() - i,
    {
        let page = pages[i];
        proof {
            assert(pages0.skip(i as int)[0] == page);
            assert(pages0.skip(i as int).skip(1) =~= pages0.skip(i + 1));
            law_access_caches_page(s3@, page);
        }
        fifo.access(page);
        s3.access(page, events);
        i = i + 1;
    }
    proof {
        assert(pages0.skip(pages0.len() as int) =~= Seq::<usize>::empty());
    }
    (fifo, s3)
}

} // verus!
