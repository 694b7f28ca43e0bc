//! The S3-FIFO replacement policy as a function on sequences: the small queue `s`, the main
//! queue `m`, the per-page access counters and the per-page "cached" flags.
use vstd::prelude::*;
use crate::frame_allocator::TOTAL_FRAMES;
use crate::queues::{S_CAP, M_CAP};

verus! {

/// Largest page identifier plus one that the cache tracks.
pub const MAX_PAGES: usize = 512;

/// The state of an S3-FIFO cache.
pub ghost struct CacheState {
    /// Small (probation) queue, front first.
    pub s: Seq<usize>,
    /// Main queue, front first.
    pub m: Seq<usize>,
    /// Access counter per page (0..=3).
    pub counts: Seq<u8>,
    /// Whether each page is marked cached.
    pub cached: Seq<bool>,
}

/// An empty cache: both queues empty, every counter zero, no page marked cached.
pub open spec fn initial_state() -> CacheState {
    CacheState {
        s: Seq::empty(),
        m: Seq::empty(),
        counts: Seq::new(MAX_PAGES as nat, |i: int| 0u8),
        cached: Seq::new(MAX_PAGES as nat, |i: int| false),
    }
}

/// Sum of all counters.
pub open spec fn seq_sum(c: Seq<u8>) -> nat
    decreases c.len(),
{
    if c.len() == 0 {
        0
    } else {
        seq_sum(c.drop_last()) + c.last() as nat
    }
}

pub proof fn lemma_seq_sum_decrement(c: Seq<u8>, x: int)
    requires
        0 <= x < c.len(),
        c[x] > 0,
    ensures
        seq_sum(c.update(x, (c[x] - 1) as u8)) == seq_sum(c) - 1,
    decreases c.len(),
{
    let d = c.update(x, (c[x] - 1) as u8);
    if x == c.len() - 1 {
        assert(d.drop_last() =~= c.drop_last());
    } else {
        lemma_seq_sum_decrement(c.drop_last(), x);
        assert(d.drop_last() =~= c.drop_last().update(x, (c[x] - 1) as u8));
    }
}

/// Number of queued pages.
pub open spec fn total(st: CacheState) -> int {
    (st.s.len() + st.m.len()) as int
}

/// The page is held by one of the two queues.
pub open spec fn queued(st: CacheState, p: usize) -> bool {
    st.s.contains(p) || st.m.contains(p)
}

/// The invariant of a cache: each queue holds distinct pages, no page is in both, every
/// queued page is a tracked page marked cached, counters stay within 0..=3 and the queues
/// stay within their capacities.
pub open spec fn queues_ok(st: CacheState) -> bool {
    &&& st.counts.len() == MAX_PAGES
    &&& st.cached.len() == MAX_PAGES
    &&& st.s.len() <= S_CAP
    &&& st.m.len() <= M_CAP
    &&& st.s.no_duplicates()
    &&& st.m.no_duplicates()
    &&& forall|x: usize| st.s.contains(x) ==> !st.m.contains(x)
    &&& forall|x: usize| #[trigger] queued(st, x) ==> x < MAX_PAGES && st.cached[x as int]
    &&& forall|p: int| 0 <= p < MAX_PAGES ==> #[trigger] st.counts[p] <= 3
}

/// A reachable cache: the invariant holds, and a page is marked cached exactly when one of the
/// queues holds it.
pub open spec fn cache_exact(st: CacheState) -> bool {
    &&& queues_ok(st)
    &&& forall|x: usize| x < MAX_PAGES && #[trigger] st.cached[x as int] ==> queued(st, x)
}

/// One eviction pass over the main queue: pages with a positive counter have it decremented
/// and go to the back; the first page found with a zero counter is removed and returned.
pub open spec fn evict_main(st: CacheState) -> (CacheState, usize)
    decreases seq_sum(st.counts),
{
    if st.m.len() == 0 || st.m[0] >= st.counts.len() {
        (st, 0)
    } else {
        let f = st.m[0];
        if st.counts[f as int] > 0 {
            proof {
                lemma_seq_sum_decrement(st.counts, f as int);
            }
            evict_main(
                CacheState {
                    s: st.s,
                    m: st.m.skip(1).push(f),
                    counts: st.counts.update(f as int, (st.counts[f as int] - 1) as u8),
                    cached: st.cached,
                },
            )
        } else {
            (CacheState { s: st.s, m: st.m.skip(1), counts: st.counts, cached: st.cached }, f)
        }
    }
}

/// One S3-FIFO eviction: the small queue is drained from the front, pages with a positive
/// counter have it decremented and move to the main queue, and the first page with a zero
/// counter is evicted. When the main queue is full on such a move, a page is evicted from the
/// main queue (and unmarked) to make room. When the small queue is empty, the main queue evicts.
pub open spec fn evict_one(st: CacheState) -> (CacheState, usize)
    decreases st.s.len(),
{
    if st.s.len() == 0 {
        evict_main(st)
    } else {
        let f = st.s[0];
        let s1 = st.s.skip(1);
        if st.counts[f as int] > 0 {
            let c1 = st.counts.update(f as int, (st.counts[f as int] - 1) as u8);
            if st.m.len() < M_CAP {
                evict_one(CacheState { s: s1, m: st.m.push(f), counts: c1, cached: st.cached })
            } else {
                let (st2, v) = evict_main(CacheState { s: s1, m: st.m, counts: c1, cached: st.cached });
                (
                    CacheState {
                        s: s1,
                        m: st2.m.push(f),
                        counts: st2.counts.update(v as int, 0),
                        cached: st2.cached.update(v as int, false),
                    },
                    v,
                )
            }
        } else {
            (CacheState { s: s1, m: st.m, counts: st.counts, cached: st.cached }, f)
        }
    }
}

/// An eviction as the cache performs it: `evict_one`, after which the evicted page is no longer
/// marked cached and its counter is reset.
pub open spec fn evict(st: CacheState) -> (CacheState, usize) {
    let (st2, v) = evict_one(st);
    (
        CacheState {
            s: st2.s,
            m: st2.m,
            counts: st2.counts.update(v as int, 0),
            cached: st2.cached.update(v as int, false),
        },
        v,
    )
}

/// Inserting an uncached page: when the cache is full one page is evicted (see `evict`); else when the small queue is full its front page moves to the main queue.
/// The page then enters the small queue at the back, marked cached, with a zero counter.
/// Returns the new state and the evicted page, if any.
pub open spec fn insert(st: CacheState, p: usize) -> (CacheState, Option<usize>) {
    let (st1, ev) = if total(st) >= TOTAL_FRAMES {
        let (st2, v) = evict(st);
        (st2, Some(v))
    } else if st.s.len() == S_CAP {
        (CacheState { s: st.s.skip(1), m: st.m.push(st.s[0]), counts: st.counts, cached: st.cached }, None)
    } else {
        (st, None)
    };
    (
        CacheState {
            s: st1.s.push(p),
            m: st1.m,
            counts: st1.counts.update(p as int, 0),
            cached: st1.cached.update(p as int, true),
        },
        ev,
    )
}

/// Accessing a page: a cached page is a hit and its counter grows, capped at 3; any other
/// page is a miss and is inserted. Returns the new state, whether it was a hit, and the
/// evicted page, if any.
pub open spec fn access(st: CacheState, p: usize) -> (CacheState, bool, Option<usize>) {
    if st.cached[p as int] {
        let c = st.counts[p as int];
        (
            CacheState {
                s: st.s,
                m: st.m,
                counts: if c < 3 { st.counts.update(p as int, (c + 1) as u8) } else { st.counts },
                cached: st.cached,
            },
            true,
            None,
        )
    } else {
        let (st1, ev) = insert(st, p);
        (st1, false, ev)
    }
}

/// Number of queue pops that `evict_main` performs.
pub open spec fn main_pops(st: CacheState) -> nat
    decreases seq_sum(st.counts),
{
    if st.m.len() == 0 || st.m[0] >= st.counts.len() {
        0
    } else {
        let f = st.m[0];
        if st.counts[f as int] > 0 {
            proof {
                lemma_seq_sum_decrement(st.counts, f as int);
            }
            1 + main_pops(
                CacheState {
                    s: st.s,
                    m: st.m.skip(1).push(f),
                    counts: st.counts.update(f as int, (st.counts[f as int] - 1) as u8),
                    cached: st.cached,
                },
            )
        } else {
            1
        }
    }
}

/// Number of queue pops that `evict_one` performs.
pub open spec fn evict_pops(st: CacheState) -> nat
    decreases st.s.len(),
{
    if st.s.len() == 0 {
        main_pops(st)
    } else {
        let f = st.s[0];
        let s1 = st.s.skip(1);
        if st.counts[f as int] > 0 {
            let c1 = st.counts.update(f as int, (st.counts[f as int] - 1) as u8);
            if st.m.len() < M_CAP {
                1 + evict_pops(CacheState { s: s1, m: st.m.push(f), counts: c1, cached: st.cached })
            } else {
                1 + main_pops(CacheState { s: s1, m: st.m, counts: c1, cached: st.cached })
            }
        } else {
            1
        }
    }
}

/// Sum of the counters of the pages in `q`.
pub open spec fn weight(q: Seq<usize>, counts: Seq<u8>) -> int
    decreases q.len(),
{
    if q.len() == 0 {
        0
    } else {
        weight(q.drop_last(), counts) + counts[q.last() as int]
    }
}

proof fn lemma_weight_front(q: Seq<usize>, counts: Seq<u8>)
    requires
        q.len() > 0,
    ensures
        weight(q, counts) == counts[q[0] as int] + weight(q.skip(1), counts),
    decreases q.len(),
{
    if q.len() > 1 {
        lemma_weight_front(q.drop_last(), counts);
        assert(q.drop_last().skip(1) =~= q.skip(1).drop_last());
    } else {
        assert(q.skip(1) =~= Seq::<usize>::empty());
        assert(q.drop_last() =~= Seq::<usize>::empty());
    }
}

proof fn lemma_weight_update_absent(q: Seq<usize>, counts: Seq<u8>, x: usize, val: u8)
    requires
        !q.contains(x),
        x < counts.len(),
        forall|i: int| 0 <= i < q.len() ==> q[i] < counts.len(),
    ensures
        weight(q, counts.update(x as int, val)) == weight(q, counts),
    decreases q.len(),
{
    if q.len() > 0 {
        assert(q.drop_last().contains(x) ==> q.contains(x)) by {
            if q.drop_last().contains(x) {
                let i = choose|i: int| 0 <= i < q.drop_last().len() && q.drop_last()[i] == x;
                assert(q[i] == x);
            }
        }
        assert(q[q.len() - 1] != x);
        lemma_weight_update_absent(q.drop_last(), counts, x, val);
    }
}

proof fn lemma_weight_nonneg(q: Seq<usize>, counts: Seq<u8>)
    ensures
        0 <= weight(q, counts),
    decreases q.len(),
{
    if q.len() > 0 {
        lemma_weight_nonneg(q.drop_last(), counts);
    }
}

proof fn lemma_weight_bound(q: Seq<usize>, counts: Seq<u8>)
    requires
        counts.len() == MAX_PAGES,
        forall|i: int| 0 <= i < q.len() ==> q[i] < MAX_PAGES,
        forall|p: int| 0 <= p < MAX_PAGES ==> #[trigger] counts[p] <= 3,
    ensures
        0 <= weight(q, counts) <= 3 * q.len(),
    decreases q.len(),
{
    if q.len() > 0 {
        lemma_weight_bound(q.drop_last(), counts);
        assert(q.last() == q[q.len() - 1]);
    }
}

proof fn lemma_main_pops_bound(st: CacheState)
    requires
        st.m.no_duplicates(),
        st.counts.len() == MAX_PAGES,
        forall|i: int| 0 <= i < st.m.len() ==> st.m[i] < MAX_PAGES,
    ensures
        main_pops(st) <= 1 + weight(st.m, st.counts),
    decreases seq_sum(st.counts),
{
    lemma_weight_nonneg(st.m, st.counts);
    if st.m.len() > 0 {
        let f = st.m[0];
        lemma_weight_front(st.m, st.counts);
        if st.counts[f as int] > 0 {
            lemma_seq_sum_decrement(st.counts, f as int);
            lemma_rotate(st.m);
            lemma_pop_front(st.m);
            let c1 = st.counts.update(f as int, (st.counts[f as int] - 1) as u8);
            let m1 = st.m.skip(1).push(f);
            let next = CacheState { s: st.s, m: m1, counts: c1, cached: st.cached };
            assert forall|i: int| 0 <= i < m1.len() implies m1[i] < MAX_PAGES by {
                if i < m1.len() - 1 {
                    assert(m1[i] == st.m[i + 1]);
                }
            }
            lemma_main_pops_bound(next);
            assert(m1.drop_last() =~= st.m.skip(1));
            assert(m1.last() == f);
            lemma_weight_update_absent(st.m.skip(1), st.counts, f, (st.counts[f as int] - 1) as u8);
            assert(weight(m1, c1) == weight(st.m.skip(1), c1) + c1[f as int]);
        }
    }
}

proof fn lemma_evict_pops_bound(st: CacheState)
    requires
        queues_ok(st),
    ensures
        evict_pops(st) <= st.s.len() + 1 + weight(st.m, st.counts) + weight(st.s, st.counts),
        0 <= weight(st.m, st.counts),
        0 <= weight(st.s, st.counts),
    decreases st.s.len(),
{
    assert forall|i: int| 0 <= i < st.m.len() implies st.m[i] < MAX_PAGES by {
        assert(st.m.contains(st.m[i]));
        assert(queued(st, st.m[i]));
    }
    assert forall|i: int| 0 <= i < st.s.len() implies st.s[i] < MAX_PAGES by {
        assert(st.s.contains(st.s[i]));
        assert(queued(st, st.s[i]));
    }
    lemma_weight_bound(st.m, st.counts);
    lemma_weight_bound(st.s, st.counts);
    if st.s.len() == 0 {
        if st.m.len() > 0 {
            lemma_main_pops_bound(st);
        }
    } else {
        let f = st.s[0];
        let s1 = st.s.skip(1);
        lemma_weight_front(st.s, st.counts);
        assert(st.s.contains(f));
        assert(!st.m.contains(f));
        lemma_pop_front(st.s);
        if st.counts[f as int] > 0 {
            let c1 = st.counts.update(f as int, (st.counts[f as int] - 1) as u8);
            lemma_small_step(st);
            lemma_weight_update_absent(st.m, st.counts, f, (st.counts[f as int] - 1) as u8);
            lemma_weight_update_absent(s1, st.counts, f, (st.counts[f as int] - 1) as u8);
            if st.m.len() < M_CAP {
                let next = CacheState { s: s1, m: st.m.push(f), counts: c1, cached: st.cached };
                lemma_evict_pops_bound(next);
                assert(next.m.drop_last() =~= st.m);
            } else {
                let mid = CacheState { s: s1, m: st.m, counts: c1, cached: st.cached };
                assert forall|i: int| 0 <= i < mid.m.len() implies mid.m[i] < MAX_PAGES by {}
                lemma_main_pops_bound(mid);
            }
        }
    }
}

/// An eviction pops the queues at most `4 * (|S| + |M|) + 1` times: each small-queue page is
/// popped once, and every further pop of the main queue uses up one unit of a counter, which
/// is at most 3 per page.
pub proof fn law_evict_pops_bounded(st: CacheState)
    requires
        queues_ok(st),
    ensures
        evict_pops(st) <= 4 * total(st) + 1,
{
    lemma_evict_pops_bound(st);
    assert forall|i: int| 0 <= i < st.m.len() implies st.m[i] < MAX_PAGES by {
        assert(st.m.contains(st.m[i]));
        assert(queued(st, st.m[i]));
    }
    assert forall|i: int| 0 <= i < st.s.len() implies st.s[i] < MAX_PAGES by {
        assert(st.s.contains(st.s[i]));
        assert(queued(st, st.s[i]));
    }
    lemma_weight_bound(st.m, st.counts);
    lemma_weight_bound(st.s, st.counts);
}

// ---- Sequence facts ----

pub proof fn lemma_pop_front(m: Seq<usize>)
    requires
        m.len() > 0,
        m.no_duplicates(),
    ensures
        m.skip(1).no_duplicates(),
        forall|x: usize| m.skip(1).contains(x) <==> (m.contains(x) && x != m[0]),
{
    let r = m.skip(1);
    assert forall|x: usize| r.contains(x) <==> (m.contains(x) && x != m[0]) by {
        if r.contains(x) {
            let i = choose|i: int| 0 <= i < r.len() && r[i] == x;
            assert(m[i + 1] == x);
        }
        if m.contains(x) && x != m[0] {
            let i = choose|i: int| 0 <= i < m.len() && m[i] == x;
            assert(i != 0);
            assert(r[i - 1] == x);
        }
    }
}

pub proof fn lemma_push_back(m: Seq<usize>, x: usize)
    requires
        m.no_duplicates(),
        !m.contains(x),
    ensures
        m.push(x).no_duplicates(),
        forall|y: usize| m.push(x).contains(y) <==> (m.contains(y) || y == x),
{
    let r = m.push(x);
    assert forall|i: int, j: int| 0 <= i < r.len() && 0 <= j < r.len() && i != j implies r[i] != r[j] by {
        if i == m.len() {
            assert(m[j] == r[j]);
        } else if j == m.len() {
            assert(m[i] == r[i]);
        }
    }
    assert forall|y: usize| r.contains(y) <==> (m.contains(y) || y == x) by {
        if r.contains(y) {
            let i = choose|i: int| 0 <= i < r.len() && r[i] == y;
            if i < m.len() {
                assert(m[i] == y);
            }
        }
        if m.contains(y) {
            let i = choose|i: int| 0 <= i < m.len() && m[i] == y;
            assert(r[i] == y);
        }
        if y == x {
            assert(r[m.len() as int] == y);
        }
    }
}

proof fn lemma_rotate(m: Seq<usize>)
    requires
        m.len() > 0,
        m.no_duplicates(),
    ensures
        m.skip(1).push(m[0]).no_duplicates(),
        m.skip(1).push(m[0]).len() == m.len(),
        forall|x: usize| m.skip(1).push(m[0]).contains(x) <==> m.contains(x),
{
    lemma_pop_front(m);
    lemma_push_back(m.skip(1), m[0]);
    assert(m.contains(m[0]));
}

// ---- Eviction facts ----

/// What an eviction from the main queue does to a good state: the main queue loses exactly
/// the returned page, which it held and whose counter is now zero; counters only decrease.
pub proof fn lemma_evict_main(st: CacheState)
    requires
        st.m.len() > 0,
        st.m.no_duplicates(),
        st.counts.len() == MAX_PAGES,
        forall|x: usize| st.m.contains(x) ==> x < MAX_PAGES,
    ensures
        ({
            let (st2, v) = evict_main(st);
            &&& st2.s == st.s
            &&& st2.cached == st.cached
            &&& st.m.contains(v)
            &&& st2.m.len() == st.m.len() - 1
            &&& st2.m.no_duplicates()
            &&& forall|x: usize| st2.m.contains(x) <==> (st.m.contains(x) && x != v)
            &&& st2.counts.len() == st.counts.len()
            &&& st2.counts[v as int] == 0
            &&& forall|p: int| 0 <= p < st.counts.len() ==> #[trigger] st2.counts[p] <= st.counts[p]
            &&& forall|p: usize| !st.m.contains(p) && p < st.counts.len() ==> #[trigger] st2.counts[p as int] == st.counts[p as int]
        }),
    decreases seq_sum(st.counts),
{
    let f = st.m[0];
    assert(st.m.contains(f));
    if st.counts[f as int] > 0 {
        lemma_seq_sum_decrement(st.counts, f as int);
        lemma_rotate(st.m);
        assert forall|x: usize| st.m.skip(1).push(f).contains(x) implies x < MAX_PAGES by {
            assert(st.m.contains(x));
        }
        let next = CacheState {
            s: st.s,
            m: st.m.skip(1).push(f),
            counts: st.counts.update(f as int, (st.counts[f as int] - 1) as u8),
            cached: st.cached,
        };
        lemma_evict_main(next);
        let (st2, v) = evict_main(next);
        assert(evict_main(st) == evict_main(next));
        assert forall|p: int| 0 <= p < st.counts.len() implies #[trigger] st2.counts[p] <= st.counts[p] by {
            assert(st2.counts[p] <= next.counts[p]);
        }
        assert forall|p: usize| !st.m.contains(p) && p < st.counts.len() implies #[trigger] st2.counts[p as int] == st.counts[p as int] by {
            assert(!next.m.contains(p));
            assert(p != f);
        }
    } else {
        lemma_pop_front(st.m);
    }
}

/// What `evict_one` does to a good, non-empty state: exactly one queued page leaves the queues
/// and is returned, its counter is zero, the small queue shrinks when it was not empty, the
/// invariant holds again, and only the returned page may lose its cached mark.
pub proof fn lemma_evict_one(st: CacheState)
    requires
        queues_ok(st),
        total(st) > 0,
    ensures
        ({
            let (st2, v) = evict_one(st);
            &&& queued(st, v)
            &&& total(st2) == total(st) - 1
            &&& st2.s.len() <= st.s.len()
            &&& st.s.len() > 0 ==> st2.s.len() < st.s.len()
            &&& forall|x: usize| queued(st2, x) <==> (queued(st, x) && x != v)
            &&& st2.counts.len() == MAX_PAGES
            &&& st2.cached.len() == MAX_PAGES
            &&& st2.counts[v as int] == 0
            &&& forall|q: int| 0 <= q < MAX_PAGES && q != v ==> #[trigger] st2.cached[q] == st.cached[q]
            &&& queues_ok(CacheState { s: st2.s, m: st2.m, counts: st2.counts, cached: st2.cached.update(v as int, false) })
            &&& queues_ok(st2)
        }),
    decreases st.s.len(),
{
    lemma_evict_one_core(st);
    let (st2, v) = evict_one(st);
    let fin = CacheState { s: st2.s, m: st2.m, counts: st2.counts, cached: st2.cached.update(v as int, false) };
    assert forall|x: usize| #[trigger] queued(st2, x) implies x < MAX_PAGES && st2.cached[x as int] by {
        assert(queued(fin, x));
        assert(queued(st, x));
    }
}

/// A step of the small-queue drain keeps the invariant: the front page, with a positive
/// counter, leaves the small queue (and joins the main queue when it has room).
pub proof fn lemma_small_step(st: CacheState)
    requires
        queues_ok(st),
        st.s.len() > 0,
        st.counts[st.s[0] as int] > 0,
    ensures
        ({
            let f = st.s[0];
            let c1 = st.counts.update(f as int, (st.counts[f as int] - 1) as u8);
            &&& f < MAX_PAGES
            &&& queues_ok(CacheState { s: st.s.skip(1), m: st.m, counts: c1, cached: st.cached })
            &&& st.m.len() < M_CAP ==> queues_ok(CacheState { s: st.s.skip(1), m: st.m.push(f), counts: c1, cached: st.cached })
        }),
{
    let f = st.s[0];
    let s1 = st.s.skip(1);
    let c1 = st.counts.update(f as int, (st.counts[f as int] - 1) as u8);
    assert(st.s.contains(f));
    assert(queued(st, f));
    lemma_pop_front(st.s);
    let mid = CacheState { s: s1, m: st.m, counts: c1, cached: st.cached };
    assert forall|x: usize| #[trigger] queued(mid, x) implies x < MAX_PAGES && mid.cached[x as int] by {
        assert(queued(st, x));
    }
    assert forall|x: usize| mid.s.contains(x) implies !mid.m.contains(x) by {
        assert(st.s.contains(x));
    }
    if st.m.len() < M_CAP {
        assert(!st.m.contains(f));
        lemma_push_back(st.m, f);
        let next = CacheState { s: s1, m: st.m.push(f), counts: c1, cached: st.cached };
        assert forall|x: usize| next.s.contains(x) implies !next.m.contains(x) by {
            assert(st.s.contains(x));
            assert(!st.m.contains(x));
        }
        assert forall|x: usize| #[trigger] queued(next, x) implies x < MAX_PAGES && next.cached[x as int] by {
            assert(queued(st, x));
        }
    }
}

proof fn lemma_evict_one_core(st: CacheState)
    requires
        queues_ok(st),
        total(st) > 0,
    ensures
        ({
            let (st2, v) = evict_one(st);
            &&& queued(st, v)
            &&& total(st2) == total(st) - 1
            &&& st2.s.len() <= st.s.len()
            &&& st.s.len() > 0 ==> st2.s.len() < st.s.len()
            &&& forall|x: usize| queued(st2, x) <==> (queued(st, x) && x != v)
            &&& st2.counts.len() == MAX_PAGES
            &&& st2.cached.len() == MAX_PAGES
            &&& st2.counts[v as int] == 0
            &&& forall|q: int| 0 <= q < MAX_PAGES && q != v ==> #[trigger] st2.cached[q] == st.cached[q]
            &&& queues_ok(CacheState { s: st2.s, m: st2.m, counts: st2.counts, cached: st2.cached.update(v as int, false) })
        }),
    decreases st.s.len(),
{
    assert forall|x: usize| st.m.contains(x) implies x < MAX_PAGES by {
        assert(queued(st, x));
    }
    if st.s.len() == 0 {
        lemma_evict_main(st);
        let (st2, v) = evict_main(st);
        assert(st2.s =~= Seq::<usize>::empty());
        assert forall|x: usize| queued(st2, x) <==> (queued(st, x) && x != v) by {}
        let fin = CacheState { s: st2.s, m: st2.m, counts: st2.counts, cached: st2.cached.update(v as int, false) };
        assert forall|x: usize| #[trigger] queued(fin, x) implies x < MAX_PAGES && fin.cached[x as int] by {
            assert(queued(st, x));
        }
        assert forall|p: int| 0 <= p < MAX_PAGES implies #[trigger] fin.counts[p] <= 3 by {
            assert(st2.counts[p] <= st.counts[p]);
        }
    } else {
        let f = st.s[0];
        let s1 = st.s.skip(1);
        assert(st.s.contains(f));
        assert(queued(st, f));
        lemma_pop_front(st.s);
        if st.counts[f as int] > 0 {
            let c1 = st.counts.update(f as int, (st.counts[f as int] - 1) as u8);
            assert(!st.m.contains(f));
            if st.m.len() < M_CAP {
                let next = CacheState { s: s1, m: st.m.push(f), counts: c1, cached: st.cached };
                lemma_push_back(st.m, f);
                assert forall|x: usize| next.s.contains(x) implies !next.m.contains(x) by {
                    assert(st.s.contains(x));
                    assert(!st.m.contains(x));
                }
                assert forall|x: usize| queued(next, x) <==> queued(st, x) by {}
                assert forall|x: usize| #[trigger] queued(next, x) implies x < MAX_PAGES && next.cached[x as int] by {
                    assert(queued(st, x));
                }
                assert forall|p: int| 0 <= p < MAX_PAGES implies #[trigger] next.counts[p] <= 3 by {}
                lemma_evict_one_core(next);
            } else {
                let mid = CacheState { s: s1, m: st.m, counts: c1, cached: st.cached };
                lemma_evict_main(mid);
                let (st2, v) = evict_main(mid);
                assert(st.m.contains(v));
                assert(v != f);
                lemma_push_back(st2.m, f);
                let res = CacheState {
                    s: s1,
                    m: st2.m.push(f),
                    counts: st2.counts.update(v as int, 0),
                    cached: st2.cached.update(v as int, false),
                };
                assert(evict_one(st) == (res, v));
                assert(queued(st, v));
                assert forall|x: usize| queued(res, x) <==> (queued(st, x) && x != v) by {
                    if x == f {
                        assert(res.m.contains(f));
                    }
                }
                let fin = CacheState { s: res.s, m: res.m, counts: res.counts, cached: res.cached.update(v as int, false) };
                assert forall|x: usize| fin.s.contains(x) implies !fin.m.contains(x) by {
                    assert(x != f);
                    assert(!st.m.contains(x));
                }
                assert forall|x: usize| #[trigger] queued(fin, x) implies x < MAX_PAGES && fin.cached[x as int] by {
                    assert(queued(res, x));
                    assert(queued(st, x));
                }
                assert forall|p: int| 0 <= p < MAX_PAGES implies #[trigger] fin.counts[p] <= 3 by {
                    if p != v {
                        assert(st2.counts[p] <= c1[p]);
                    }
                }
                assert(fin.cached =~= res.cached);
            }
        } else {
            let res = CacheState { s: s1, m: st.m, counts: st.counts, cached: st.cached };
            assert(evict_one(st) == (res, f));
            assert forall|x: usize| queued(res, x) <==> (queued(st, x) && x != f) by {
                if st.m.contains(x) {
                    assert(x != f);
                }
            }
            let fin = CacheState { s: res.s, m: res.m, counts: res.counts, cached: res.cached.update(f as int, false) };
            assert forall|x: usize| #[trigger] queued(fin, x) implies x < MAX_PAGES && fin.cached[x as int] by {
                assert(queued(res, x));
                assert(queued(st, x));
            }
            assert forall|x: usize| fin.s.contains(x) implies !fin.m.contains(x) by {}
        }
    }
}


// ---- Laws ----

/// What an eviction picks, by the state of the small queue's front page `f`:
/// - with a zero counter, `f` itself is evicted;
/// - with a positive counter and the main queue full, `f` is not evicted: it stays queued, at
///   the back of the main queue with its counter one lower, and the victim is a page the main
///   queue held, with a zero counter;
/// - with the small queue empty, the victim is a page the main queue held.
pub proof fn law_evict_victim(st: CacheState)
    requires
        queues_ok(st),
        total(st) > 0,
    ensures
        ({
            let (st2, v) = evict_one(st);
            &&& st2.counts[v as int] == 0
            &&& st.s.len() == 0 ==> st.m.contains(v)
            &&& st.s.len() > 0 && st.counts[st.s[0] as int] == 0 ==> v == st.s[0]
            &&& st.s.len() > 0 && st.counts[st.s[0] as int] > 0 && st.m.len() == M_CAP ==> {
                &&& st.m.contains(v)
                &&& v != st.s[0]
                &&& queued(st2, st.s[0])
                &&& st2.m.last() == st.s[0]
                &&& st2.counts[st.s[0] as int] == st.counts[st.s[0] as int] - 1
            }
        }),
{
    lemma_evict_one(st);
    assert forall|x: usize| st.m.contains(x) implies x < MAX_PAGES by {
        assert(queued(st, x));
    }
    if st.s.len() == 0 {
        lemma_evict_main(st);
    } else {
        let f = st.s[0];
        assert(st.s.contains(f));
        assert(queued(st, f));
        assert(!st.m.contains(f));
        if st.counts[f as int] > 0 && st.m.len() == M_CAP {
            let c1 = st.counts.update(f as int, (st.counts[f as int] - 1) as u8);
            let mid = CacheState { s: st.s.skip(1), m: st.m, counts: c1, cached: st.cached };
            lemma_evict_main(mid);
            let (st3, v) = evict_main(mid);
            assert(st.m.contains(v));
            assert(v != f);
            assert(st3.counts[f as int] == c1[f as int]);
            let (st2, v2) = evict_one(st);
            assert(v2 == v);
            assert(st2.m.last() == f);
            assert(st2.m.contains(f));
        }
    }
}

/// Draining the small queue evicts its first page with a zero counter when the pages in front
/// of it all have positive counters and the main queue has room for all of them (they move
/// there, each with its counter one lower).
pub proof fn law_small_drain_victim(st: CacheState, j: int)
    requires
        0 <= j < st.s.len(),
        st.m.len() + j <= M_CAP,
        st.counts[st.s[j] as int] == 0,
        st.s.no_duplicates(),
        forall|i: int| 0 <= i < j ==> st.counts[#[trigger] st.s[i] as int] > 0,
        forall|i: int| 0 <= i < st.s.len() ==> st.s[i] < st.counts.len(),
    ensures
        evict_one(st).1 == st.s[j],
    decreases j,
{
    if j > 0 {
        let f = st.s[0];
        let s1 = st.s.skip(1);
        let c1 = st.counts.update(f as int, (st.counts[f as int] - 1) as u8);
        let next = CacheState { s: s1, m: st.m.push(f), counts: c1, cached: st.cached };
        assert(st.counts[f as int] > 0);
        assert(s1[j - 1] == st.s[j]);
        assert(st.s[j] != f);
        assert forall|a: int, b: int| 0 <= a < s1.len() && 0 <= b < s1.len() && a != b implies s1[a] != s1[b] by {
            assert(s1[a] == st.s[a + 1] && s1[b] == st.s[b + 1]);
        }
        assert forall|i: int| 0 <= i < j - 1 implies next.counts[#[trigger] next.s[i] as int] > 0 by {
            assert(next.s[i] == st.s[i + 1]);
            assert(st.s[i + 1] != f);
            assert(st.counts[st.s[i + 1] as int] > 0);
        }
        law_small_drain_victim(next, j - 1);
    }
}

/// Scanning the main queue evicts its first page with a zero counter when the pages in front
/// of it all have positive counters (each of those gets its second chance first).
pub proof fn law_main_scan_victim(st: CacheState, j: int)
    requires
        st.m.no_duplicates(),
        st.counts.len() == MAX_PAGES,
        forall|i: int| 0 <= i < st.m.len() ==> st.m[i] < MAX_PAGES,
        0 <= j < st.m.len(),
        st.counts[st.m[j] as int] == 0,
        forall|i: int| 0 <= i < j ==> st.counts[#[trigger] st.m[i] as int] > 0,
    ensures
        evict_main(st).1 == st.m[j],
    decreases j,
{
    if j > 0 {
        let f = st.m[0];
        lemma_seq_sum_decrement(st.counts, f as int);
        lemma_rotate(st.m);
        let m1 = st.m.skip(1).push(f);
        let c1 = st.counts.update(f as int, (st.counts[f as int] - 1) as u8);
        let next = CacheState { s: st.s, m: m1, counts: c1, cached: st.cached };
        assert(st.counts[f as int] > 0);
        assert forall|i: int| 0 <= i < m1.len() implies m1[i] < MAX_PAGES by {
            if i < m1.len() - 1 {
                assert(m1[i] == st.m[i + 1]);
            }
        }
        assert(m1[j - 1] == st.m[j]);
        assert(st.m[j] != f);
        assert forall|i: int| 0 <= i < j - 1 implies next.counts[#[trigger] next.m[i] as int] > 0 by {
            assert(next.m[i] == st.m[i + 1]);
            assert(st.m[i + 1] != f);
            assert(st.counts[st.m[i + 1] as int] > 0);
        }
        law_main_scan_victim(next, j - 1);
        assert(evict_main(st) == evict_main(next));
    }
}

/// A miss below capacity evicts nothing and changes no counter but the inserted page's, which
/// is zero: in particular a page promoted from the small to the main queue keeps its counter.
/// When the small queue was full, its front page moves to the back of the main queue.
pub proof fn law_miss_below_capacity(st: CacheState, p: usize)
    requires
        queues_ok(st),
        p < MAX_PAGES,
        !st.cached[p as int],
        total(st) < TOTAL_FRAMES,
    ensures
        ({
            let (st2, hit, ev) = access(st, p);
            &&& !hit
            &&& ev is None
            &&& st2.counts.len() == st.counts.len()
            &&& st2.counts[p as int] == 0
            &&& forall|q: int| 0 <= q < MAX_PAGES && q != p ==> #[trigger] st2.counts[q] == st.counts[q]
            &&& st.s.len() == S_CAP ==> st2.m == st.m.push(st.s[0]) && st2.s == st.s.skip(1).push(p)
            &&& st.s.len() < S_CAP ==> st2.m == st.m && st2.s == st.s.push(p)
        }),
{
}

/// An empty cache is a reachable cache.
pub proof fn law_initial_exact()
    ensures
        cache_exact(initial_state()),
        total(initial_state()) == 0,
{
    let st = initial_state();
    assert forall|x: usize| #[trigger] queued(st, x) implies x < MAX_PAGES && st.cached[x as int] by {
        assert(!st.s.contains(x));
        assert(!st.m.contains(x));
    }
}

/// Evicting from a non-empty reachable cache removes exactly one page, which was queued, from
/// the queues and from the cached marks, and keeps the cache reachable.
pub proof fn law_evict(st: CacheState)
    requires
        cache_exact(st),
        total(st) > 0,
    ensures
        ({
            let (st2, v) = evict(st);
            &&& v < MAX_PAGES
            &&& queued(st, v)
            &&& !queued(st2, v)
            &&& !st2.cached[v as int]
            &&& st2.counts[v as int] == 0
            &&& total(st2) == total(st) - 1
            &&& forall|x: usize| queued(st2, x) <==> (queued(st, x) && x != v)
            &&& cache_exact(st2)
        }),
{
    lemma_evict_one(st);
    let (st1, v) = evict_one(st);
    let (st2, _) = evict(st);
    assert(st2.counts =~= st1.counts);
    assert forall|x: usize| x < MAX_PAGES && #[trigger] st2.cached[x as int] implies queued(st2, x) by {
        assert(x != v);
        assert(st.cached[x as int]);
        assert(queued(st, x));
    }
}

/// Accessing a tracked page keeps a reachable cache reachable: afterwards a page is marked
/// cached exactly when it is queued, and the accessed page is queued.
pub proof fn law_access_exact(st: CacheState, p: usize)
    requires
        cache_exact(st),
        p < MAX_PAGES,
    ensures
        cache_exact(access(st, p).0),
        queued(access(st, p).0, p),
{
    lemma_access_ok(st, p);
    let st2 = access(st, p).0;
    if st.cached[p as int] {
        assert forall|x: usize| x < MAX_PAGES && #[trigger] st2.cached[x as int] implies queued(st2, x) by {
            assert(st.cached[x as int]);
        }
    } else {
        assert(st2.s.contains(p)) by {
            assert(st2.s[st2.s.len() - 1] == p);
        }
        if total(st) >= TOTAL_FRAMES {
            law_evict(st);
        }
        assert forall|x: usize| x < MAX_PAGES && #[trigger] st2.cached[x as int] implies queued(st2, x) by {
            if x != p {
                if total(st) >= TOTAL_FRAMES {
                    let (st1, v) = evict(st);
                    assert(st1.cached[x as int]);
                    assert(queued(st1, x));
                } else {
                    assert(st.cached[x as int]);
                    assert(queued(st, x));
                    if st.s.len() == S_CAP && x == st.s[0] {
                        assert(st2.m.contains(x));
                    }
                }
            }
        }
    }
}

/// A good cache never holds more than `TOTAL_FRAMES` pages.
pub proof fn law_cache_bounded(st: CacheState)
    requires
        queues_ok(st),
    ensures
        total(st) <= TOTAL_FRAMES,
{
}

/// Accessing a tracked page keeps the invariant, reports a hit exactly when the page was
/// marked cached, and leaves the page marked cached.
pub proof fn law_access_caches_page(st: CacheState, p: usize)
    requires
        queues_ok(st),
        p < MAX_PAGES,
    ensures
        queues_ok(access(st, p).0),
        access(st, p).1 == st.cached[p as int],
        access(st, p).0.cached[p as int],
{
    lemma_access_ok(st, p);
}

/// A hit changes only the page's counter, which grows by one up to 3; nothing is evicted.
pub proof fn law_hit(st: CacheState, p: usize)
    requires
        queues_ok(st),
        p < MAX_PAGES,
        st.cached[p as int],
    ensures
        access(st, p).0.s == st.s,
        access(st, p).0.m == st.m,
        access(st, p).0.cached == st.cached,
        access(st, p).0.counts[p as int] == if st.counts[p as int] < 3 { st.counts[p as int] + 1 } else { 3 },
        access(st, p).2 is None,
{
}

/// A miss puts the page at the back of the small queue with a zero counter. Below capacity
/// the cache grows by one page and nothing is evicted; at capacity exactly one other page,
/// which was queued, is evicted and unmarked, and the cache stays at `TOTAL_FRAMES` pages.
pub proof fn law_miss(st: CacheState, p: usize)
    requires
        queues_ok(st),
        p < MAX_PAGES,
        !st.cached[p as int],
    ensures
        ({
            let (st2, hit, ev) = access(st, p);
            &&& !hit
            &&& st2.s.last() == p
            &&& st2.counts[p as int] == 0
            &&& total(st) < TOTAL_FRAMES ==> ev is None && total(st2) == total(st) + 1
                && forall|x: usize| queued(st2, x) <==> (queued(st, x) || x == p)
            &&& total(st) >= TOTAL_FRAMES ==> {
                &&& ev is Some
                &&& ev->0 != p
                &&& queued(st, ev->0)
                &&& !queued(st2, ev->0)
                &&& !st2.cached[ev->0 as int]
                &&& total(st2) == TOTAL_FRAMES
                &&& forall|x: usize| queued(st2, x) <==> ((queued(st, x) && x != ev->0) || x == p)
            }
        }),
{
    lemma_access_ok(st, p);
}

/// Before a missed page enters the small queue, the small queue has room for it.
pub proof fn lemma_access_room(st: CacheState, p: usize)
    requires
        queues_ok(st),
        p < MAX_PAGES,
        !st.cached[p as int],
    ensures
        ({
            let st1 = if total(st) >= TOTAL_FRAMES {
                let (st2, v) = evict_one(st);
                st2
            } else if st.s.len() == S_CAP {
                CacheState { s: st.s.skip(1), m: st.m.push(st.s[0]), counts: st.counts, cached: st.cached }
            } else {
                st
            };
            &&& st1.s.len() < S_CAP
            &&& st.s.len() == S_CAP && total(st) < TOTAL_FRAMES ==> st.m.len() < M_CAP
        }),
{
    if total(st) >= TOTAL_FRAMES {
        lemma_evict_one(st);
    }
}

proof fn lemma_access_ok(st: CacheState, p: usize)
    requires
        queues_ok(st),
        p < MAX_PAGES,
    ensures
        queues_ok(access(st, p).0),
        access(st, p).1 == st.cached[p as int],
        access(st, p).0.cached[p as int],
        !st.cached[p as int] ==> {
            let (st2, hit, ev) = access(st, p);
            &&& st2.s.last() == p
            &&& st2.counts[p as int] == 0
            &&& total(st) < TOTAL_FRAMES ==> ev is None && total(st2) == total(st) + 1
                && forall|x: usize| queued(st2, x) <==> (queued(st, x) || x == p)
            &&& total(st) >= TOTAL_FRAMES ==> {
                &&& ev is Some
                &&& ev->0 != p
                &&& queued(st, ev->0)
                &&& !queued(st2, ev->0)
                &&& !st2.cached[ev->0 as int]
                &&& total(st2) == TOTAL_FRAMES
                &&& forall|x: usize| queued(st2, x) <==> ((queued(st, x) && x != ev->0) || x == p)
            }
        },
{
    if st.cached[p as int] {
        let st2 = access(st, p).0;
        assert forall|x: usize| #[trigger] queued(st2, x) implies x < MAX_PAGES && st2.cached[x as int] by {
            assert(queued(st, x));
        }
        assert forall|q: int| 0 <= q < MAX_PAGES implies #[trigger] st2.counts[q] <= 3 by {
            assert(st.counts[q] <= 3);
        }
    } else {
        assert(!queued(st, p));
        let st1 = if total(st) >= TOTAL_FRAMES {
            lemma_evict_one(st);
            let (st2, v) = evict_one(st);
            assert(v != p);
            let fin = CacheState { s: st2.s, m: st2.m, counts: st2.counts, cached: st2.cached.update(v as int, false) };
            let st1 = CacheState { s: st2.s, m: st2.m, counts: st2.counts.update(v as int, 0), cached: st2.cached.update(v as int, false) };
            assert(st1.counts =~= fin.counts);
            assert(st1 == fin);
            assert(!queued(st1, v));
            st1
        } else if st.s.len() == S_CAP {
            assert(st.s.contains(st.s[0]));
            assert(queued(st, st.s[0]));
            lemma_pop_front(st.s);
            assert(!st.m.contains(st.s[0]));
            lemma_push_back(st.m, st.s[0]);
            let st1 = CacheState { s: st.s.skip(1), m: st.m.push(st.s[0]), counts: st.counts, cached: st.cached };
            assert forall|x: usize| st1.s.contains(x) implies !st1.m.contains(x) by {
                assert(st.s.contains(x));
            }
            assert forall|x: usize| queued(st1, x) <==> queued(st, x) by {
                if x == st.s[0] {
                    assert(st1.m.contains(x));
                }
            }
            assert forall|x: usize| #[trigger] queued(st1, x) implies x < MAX_PAGES && st1.cached[x as int] by {
                assert(queued(st, x));
            }
            st1
        } else {
            st
        };
        assert(insert(st, p).0.s == st1.s.push(p));
        assert(queues_ok(st1));
        assert(!queued(st1, p));
        assert(st1.s.len() < S_CAP);
        lemma_push_back(st1.s, p);
        let st2 = access(st, p).0;
        assert(st2.s == st1.s.push(p));
        assert forall|x: usize| st2.s.contains(x) implies !st2.m.contains(x) by {
            if x != p {
                assert(st1.s.contains(x));
            }
        }
        assert forall|x: usize| #[trigger] queued(st2, x) implies x < MAX_PAGES && st2.cached[x as int] by {
            if x != p {
                assert(queued(st1, x));
            }
        }
        assert forall|q: int| 0 <= q < MAX_PAGES implies #[trigger] st2.counts[q] <= 3 by {
            assert(st1.counts[q] <= 3);
        }
        assert forall|x: usize| queued(st2, x) <==> (queued(st1, x) || x == p) by {}
    }
}

} // verus!
