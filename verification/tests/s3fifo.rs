use kernel::events::EventType;
use kernel::fifo_cache::FifoCache;
use kernel::frame_allocator::TOTAL_FRAMES;
use kernel::queues::{M_CAP, S_CAP};
use kernel::ring_buffer::{Event, EventRing};
use kernel::s3fifo::{self, S3Fifo};
use kernel::workload::{hotspot_pattern};

fn total(cache: &S3Fifo) -> usize {
    let (s, m) = cache.stats();
    s + m
}

#[test]
fn test_basic_insert_evict() {
    let mut ring = EventRing::new();
    let mut cache = S3Fifo::new();
    for i in 0..TOTAL_FRAMES {
        assert!(!cache.access(i, &mut ring));
    }
    assert_eq!(total(&cache), TOTAL_FRAMES);
    cache.access(TOTAL_FRAMES, &mut ring);
    assert_eq!(total(&cache), TOTAL_FRAMES);
}

#[test]
fn test_hotspot_survival() {
    let mut ring = EventRing::new();
    let mut cache = S3Fifo::new();
    for i in 0..TOTAL_FRAMES {
        cache.access(i, &mut ring);
        if i < 4 {
            cache.access(i, &mut ring);
        }
    }
    for p in 0..4 {
        assert!(cache.is_cached(p));
    }
    for i in 128..256 {
        cache.access(i, &mut ring);
        for hot in 0..4 {
            cache.access(hot, &mut ring);
        }
    }
    for p in 0..4 {
        assert!(cache.is_cached(p));
    }
}

#[test]
fn test_sequential_scan() {
    let mut ring = EventRing::new();
    let mut cache = S3Fifo::new();
    for i in 0..200 {
        cache.access(i, &mut ring);
    }
    let misses_after_fill = cache.misses - TOTAL_FRAMES as u64;
    assert!(misses_after_fill > 0);
    assert_eq!(total(&cache), TOTAL_FRAMES);
}

#[test]
fn test_fifo_baseline() {
    let mut fifo = FifoCache::new();
    let pattern = hotspot_pattern(4, 128, 200);
    for &page in pattern.as_slice() {
        fifo.access(page);
    }
    assert_eq!(fifo.hits + fifo.misses, 128);
    assert!(fifo.hits > 0);
}

#[test]
fn capacities_split_the_frames() {
    assert_eq!(S_CAP, 16);
    assert_eq!(M_CAP, 112);
}

#[test]
fn hits_and_misses_are_counted() {
    let mut ring = EventRing::new();
    let mut cache = S3Fifo::new();
    assert!(!cache.access(5, &mut ring));
    assert!(cache.access(5, &mut ring));
    assert!(cache.access(5, &mut ring));
    assert_eq!((cache.hits, cache.misses), (2, 1));
    cache.reset_stats();
    assert_eq!((cache.hits, cache.misses), (0, 0));
    assert!(cache.is_cached(5));
    assert_eq!(cache.stats(), (1, 0));
}

#[test]
fn small_queue_overflows_into_main() {
    let mut ring = EventRing::new();
    let mut cache = S3Fifo::new();
    for i in 0..20 {
        cache.access(i, &mut ring);
    }
    assert_eq!(cache.stats(), (16, 4));
    assert_eq!(ring.len(), 0);
}

#[test]
fn eviction_of_cold_page_is_logged() {
    let mut ring = EventRing::new();
    let mut cache = S3Fifo::new();
    for i in 0..TOTAL_FRAMES {
        cache.access(i, &mut ring);
    }
    // The small queue holds pages 112..128, all with zero counters: 112 is evicted first.
    cache.access(300, &mut ring);
    assert!(!cache.is_cached(112));
    assert!(cache.is_cached(300));
    let mut out = [Event::zero(); 4];
    assert_eq!(ring.read(&mut out), 1);
    assert_eq!(out[0].event_type, EventType::PageEvict.code());
    assert_eq!(out[0].arg1, 112);
}

#[test]
fn accessed_small_page_moves_to_main_on_eviction() {
    let mut ring = EventRing::new();
    let mut cache = S3Fifo::new();
    // Fill S with 0..16 while M is empty; page 0 gets a positive counter.
    for i in 0..16 {
        cache.access(i, &mut ring);
    }
    cache.access(0, &mut ring);
    // Fill the rest: pages 0..112 are promoted into M as S overflows.
    for i in 16..TOTAL_FRAMES {
        cache.access(i, &mut ring);
    }
    assert_eq!(cache.stats(), (16, 112));
    // Evicting from S: its pages 112..128 all have zero counters.
    let v = s3fifo::evict_one_global(&mut cache);
    assert_eq!(v, 112);
    assert_eq!(cache.stats(), (15, 112));
    // The evicted page is no longer cached: its next access is a miss that queues it again.
    assert!(!cache.is_cached(112));
    let misses = cache.misses;
    assert!(!cache.access(112, &mut ring));
    assert_eq!(cache.misses, misses + 1);
    assert_eq!(cache.stats(), (16, 112));
}

#[test]
fn access_global_records_access() {
    let mut ring = EventRing::new();
    let mut cache = S3Fifo::new();
    s3fifo::access_global(&mut cache, 42, &mut ring);
    assert!(cache.is_cached(42));
    assert_eq!(cache.misses, 1);
    s3fifo::access_global(&mut cache, 42, &mut ring);
    assert_eq!(cache.hits, 1);
}

#[test]
fn main_queue_gives_second_chance() {
    let mut ring = EventRing::new();
    let mut cache = S3Fifo::new();
    for i in 0..TOTAL_FRAMES {
        cache.access(i, &mut ring);
    }
    // M holds 0..112 (front 0). Give page 0 a hit, then drain S and evict from M.
    cache.access(0, &mut ring);
    for _ in 0..16 {
        s3fifo::evict_one_global(&mut cache);
    }
    assert_eq!(cache.stats(), (0, 112));
    // Page 0 has a counter of 1: it goes to the back, page 1 is evicted.
    assert_eq!(s3fifo::evict_one_global(&mut cache), 1);
    assert_eq!(cache.stats(), (0, 111));
}

#[test]
fn fifo_cache_evicts_oldest() {
    let mut fifo = FifoCache::new();
    for i in 0..TOTAL_FRAMES {
        assert!(!fifo.access(i));
    }
    assert!(fifo.access(0));
    assert!(!fifo.access(500));
    assert!(!fifo.access(0));
    assert!(!fifo.access(512));
    assert_eq!(fifo.hits, 1);
    assert_eq!(fifo.misses, TOTAL_FRAMES as u64 + 2);
}
