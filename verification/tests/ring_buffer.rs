use kernel::ring_buffer::{self, Event, EventRing, RING_SIZE};

fn ev(n: u64) -> Event {
    let mut e = Event::zero();
    e.arg1 = n;
    e
}

#[test]
fn zero_event_is_all_zero() {
    let e = Event::zero();
    assert_eq!(e.event_type, 0);
    assert_eq!(e._pad, [0u8; 7]);
    assert_eq!((e.arg1, e.arg2, e.arg3), (0, 0, 0));
}

#[test]
fn read_returns_events_in_order() {
    let mut r = EventRing::new();
    assert_eq!(r.len(), 0);
    for i in 1..=3 {
        r.push_unchecked(ev(i));
    }
    assert_eq!(r.len(), 3);
    assert_eq!(ring_buffer::pending_count(&r), 3);
    let mut out = [Event::zero(); 2];
    assert_eq!(r.read(&mut out), 2);
    assert_eq!(out[0].arg1, 1);
    assert_eq!(out[1].arg1, 2);
    assert_eq!(r.len(), 1);
    let mut out = [ev(99); 4];
    assert_eq!(r.read(&mut out), 1);
    assert_eq!(out[0].arg1, 3);
    assert_eq!(out[1].arg1, 99);
    assert_eq!(r.len(), 0);
    assert_eq!(r.total_written(), 3);
}

#[test]
fn full_ring_drops_oldest() {
    let mut r = EventRing::new();
    for i in 0..300u64 {
        r.push_unchecked(ev(i));
    }
    assert_eq!(r.len(), RING_SIZE);
    assert_eq!(r.total_written(), 300);
    let mut out = [Event::zero(); 300];
    assert_eq!(r.read(&mut out), RING_SIZE);
    for i in 0..RING_SIZE {
        assert_eq!(out[i].arg1, 44 + i as u64);
    }
    assert_eq!(r.len(), 0);
    r.push_unchecked(ev(7));
    let mut one = [Event::zero(); 1];
    assert_eq!(r.read(&mut one), 1);
    assert_eq!(one[0].arg1, 7);
}

#[test]
fn read_into_empty_buffer_reads_nothing() {
    let mut r = EventRing::new();
    r.push_unchecked(ev(1));
    let mut out: [Event; 0] = [];
    assert_eq!(r.read(&mut out), 0);
    assert_eq!(r.len(), 1);
}
