use kernel::ring_buffer::EventRing;
use kernel::workload::{compare, hotspot_pattern, random_pattern, sequential_pattern, Lcg};

#[test]
fn lcg_steps() {
    let mut rng = Lcg::new(1);
    assert_eq!(rng.next(), 7806831264735756412);
    let mut r2 = Lcg::new(0);
    assert_eq!(r2.next(), 1442695040888963407);
}

#[test]
fn sequential_pattern_cycles() {
    let v = sequential_pattern(5, 3);
    assert_eq!(v.as_slice(), &[0, 1, 2, 0, 1]);
    let w = sequential_pattern(2000, 200);
    assert_eq!(w.as_slice().len(), 1024);
}

#[test]
fn random_pattern_uses_generator() {
    let mut rng = Lcg::new(1);
    let v = random_pattern(&mut rng, 2, 100);
    assert_eq!(v.as_slice(), &[(7806831264735756412u64 % 100) as usize, {
        let mut r = Lcg::new(7806831264735756412);
        (r.next() % 100) as usize
    }]);
    let mut rng = Lcg::new(12345);
    let v = random_pattern(&mut rng, 1000, 100);
    assert_eq!(v.as_slice().len(), 1000);
    assert!(v.as_slice().iter().all(|&p| p < 100));
}

#[test]
fn hotspot_pattern_shape() {
    let v = hotspot_pattern(8, 1000, 200);
    let s = v.as_slice();
    assert_eq!(s.len(), 1000);
    assert!(s.iter().all(|&p| p < 200));
    let hot = s.iter().filter(|&&p| p < 8).count();
    assert!(hot > 700 && hot < 900);
    assert_eq!(hotspot_pattern(8, 1000, 200).as_slice(), s);
}

#[test]
fn compare_runs_both_caches() {
    let mut ring = EventRing::new();
    let (fifo, s3) = compare(&[1, 2, 1, 3, 2], &mut ring);
    assert_eq!((fifo.hits, fifo.misses), (2, 3));
    assert_eq!((s3.hits, s3.misses), (2, 3));
    let seq = sequential_pattern(1000, 200);
    let (fifo, s3) = compare(seq.as_slice(), &mut ring);
    assert_eq!(fifo.hits, 0);
    assert_eq!(fifo.hits + fifo.misses, 1000);
    assert_eq!(s3.hits + s3.misses, 1000);
}

#[test]
fn empty_patterns_need_no_bounds() {
    assert_eq!(sequential_pattern(0, 0).as_slice(), &[] as &[usize]);
    assert_eq!(hotspot_pattern(0, 0, 0).as_slice(), &[] as &[usize]);
    let mut rng = Lcg::new(5);
    assert_eq!(random_pattern(&mut rng, 0, 0).as_slice(), &[] as &[usize]);
    assert_eq!(rng.next(), Lcg::new(5).next());
}
