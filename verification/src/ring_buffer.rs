//! Event ring buffer: a fixed number of slots; when full, a new event overwrites the oldest.
use vstd::prelude::*;

verus! {

/// Number of entries in the ring buffer (a power of 2).
pub const RING_SIZE: usize = 256;

/// 2^64: the period of the wrapping 64-bit counters.
pub open spec fn counter_period() -> int {
    0x1_0000_0000_0000_0000
}

/// Number of events between `tail` and `head`, counted with wrap-around.
pub open spec fn pending(head: u64, tail: u64) -> int {
    if head >= tail {
        head - tail
    } else {
        head + counter_period() - tail
    }
}

/// A single event entry.
#[derive(Debug, Clone, Copy)]
pub struct Event {
    /// The kind of event (see `EventType`).
    pub event_type: u8,
    /// Padding, always zero when the kernel fills it.
    pub _pad: [u8; 7],
    /// First argument.
    pub arg1: u64,
    /// Second argument.
    pub arg2: u64,
    /// Third argument.
    pub arg3: u64,
}

impl Event {
    /// The all-zero event.
    pub open spec fn spec_zero() -> Event {
        Event { event_type: 0, _pad: [0u8, 0, 0, 0, 0, 0, 0], arg1: 0, arg2: 0, arg3: 0 }
    }

    /// The all-zero event.
    pub fn zero() -> (r: Self)
        ensures
            r == Event::spec_zero(),
    {
        Event { event_type: 0, _pad: [0u8, 0, 0, 0, 0, 0, 0], arg1: 0, arg2: 0, arg3: 0 }
    }
}

/// Single-producer ring buffer with free-running head and tail counters.
pub struct EventRing {
    head: u64,
    tail: u64,
    buffer: Vec<Event>,
}

impl EventRing {
    /// Counter of events ever written.
    pub closed spec fn spec_head(&self) -> u64 {
        self.head
    }

    /// Counter of the oldest unread event.
    pub closed spec fn spec_tail(&self) -> u64 {
        self.tail
    }

    /// The buffer has its size and the counters are at most `RING_SIZE` apart.
    pub closed spec fn slots_ok(&self) -> bool {
        &&& self.buffer@.len() == RING_SIZE
        &&& pending(self.head, self.tail) <= RING_SIZE
    }

    /// Well-formedness: at most `RING_SIZE` events are unread.
    pub open spec fn wf(&self) -> bool {
        &&& self.slots_ok()
        &&& self@.len() <= RING_SIZE
    }

    /// The unread events, oldest first.
    pub closed spec fn view(&self) -> Seq<Event> {
        Seq::new(
            pending(self.head, self.tail) as nat,
            |i: int| self.buffer@[(self.tail + i) % (RING_SIZE as int)],
        )
    }

    /// An empty ring.
    pub fn new() -> (r: Self)
        ensures
            r.wf(),
            r@ == Seq::<Event>::empty(),
            r.spec_head() == 0,
            r.spec_tail() == 0,
    {
        let mut buffer: Vec<Event> = Vec::new();
        let mut i: usize = 0;
        while i < RING_SIZE
            invariant
                i <= RING_SIZE,
                buffer@.len() == i,
            decreases RING_SIZE - i,
        {
            buffer.push(Event::zero());
            i = i + 1;
        }
        let r = EventRing { head: 0, tail: 0, buffer };
        assert(r@ =~= Seq::<Event>::empty());
        r
    }

    /// Pushes an event. When the ring is full, the oldest unread event is dropped.
    pub fn push_unchecked(&mut self, event: Event)
        requires
            old(self).wf(),
        ensures
            final(self).wf(),
            final(self)@ == ring_push(old(self)@, event),
            final(self).spec_head() == vstd::wrapping::u64_specs::wrapping_add(old(self).spec_head(), 1),
    {
        let head = self.head;
        let idx = (head % RING_SIZE as u64) as usize;
        let ghost old_view = self@;
        let ghost old_tail = self.tail;
        let ghost len = pending(head, self.tail);
        proof {
            if head >= self.tail {
                assert(head == self.tail + len);
            } else {
                assert(head == self.tail + len - counter_period());
            }
            assert(idx as int == (self.tail + len) % (RING_SIZE as int));
        }
        self.buffer.set(idx, event);
        let new_head = head.wrapping_add(1);
        self.head = new_head;
        let tail = self.tail;
        if new_head.wrapping_sub(tail) > RING_SIZE as u64 {
            self.tail = new_head.wrapping_sub(RING_SIZE as u64);
        }
        proof {
            if len < RING_SIZE {
                assert(pending(self.head, self.tail) == len + 1);
                assert forall|i: int| 0 <= i < len implies self@[i] == old_view[i] by {
                    assert((old_tail + i) % (RING_SIZE as int) != (old_tail + len) % (RING_SIZE as int));
                }
                assert(self@ =~= old_view.push(event));
            } else {
                assert(pending(self.head, self.tail) == RING_SIZE);
                assert(self.tail as int == (old_tail + 1) % counter_period());
                assert forall|i: int| 0 <= i < RING_SIZE implies self@[i] == old_view.skip(1).push(event)[i] by {
                    assert((self.tail + i) % (RING_SIZE as int) == (old_tail + 1 + i) % (RING_SIZE as int));
                    if i < RING_SIZE - 1 {
                        assert((old_tail + 1 + i) % (RING_SIZE as int) != (old_tail + len) % (RING_SIZE as int));
                    }
                }
                assert(self@ =~= old_view.skip(1).push(event));
            }
        }
    }

    /// Reads unread events into `out`, oldest first, as many as fit; returns how many were read.
    pub fn read(&mut self, out: &mut [Event]) -> (count: usize)
        requires
            old(self).wf(),
        ensures
            final(self).wf(),
            count == vstd::math::min(old(self)@.len() as int, old(out)@.len() as int),
            final(out)@.len() == old(out)@.len(),
            final(out)@.subrange(0, count as int) == old(self)@.subrange(0, count as int),
            final(out)@.subrange(count as int, old(out)@.len() as int)
                == old(out)@.subrange(count as int, old(out)@.len() as int),
            final(self)@ == old(self)@.skip(count as int),
            final(self).spec_head() == old(self).spec_head(),
    {
        let head = self.head;
        let tail = self.tail;
        let available = head.wrapping_sub(tail) as usize;
        let count = if available < out.len() { available } else { out.len() };
        let ghost old_view = self@;
        let ghost old_out = out@;
        let mut i: usize = 0;
        while i < count
            invariant
                self.wf(),
                self.head == head,
                self.tail == tail,
                self@ == old_view,
                count <= old_view.len(),
                count <= old_out.len(),
                i <= count,
                out@.len() == old_out.len(),
                forall|k: int| 0 <= k < i ==> out@[k] == old_view[k],
                forall|k: int| i <= k < out@.len() ==> out@[k] == old_out[k],
            decreases count - i,
        {
            let idx = (tail.wrapping_add(i as u64) % RING_SIZE as u64) as usize;
            proof {
                if tail as int + i > u64::MAX {
                    assert(idx as int == (tail as int + i - counter_period()) % (RING_SIZE as int));
                }
                assert(idx as int == (tail + i) % (RING_SIZE as int));
            }
            out[i] = self.buffer[idx];
            i = i + 1;
        }
        if count > 0 {
            self.tail = tail.wrapping_add(count as u64);
        }
        proof {
            assert(out@.subrange(0, count as int) =~= old_view.subrange(0, count as int));
            assert(out@.subrange(count as int, old_out.len() as int) =~= old_out.subrange(count as int, old_out.len() as int));
            assert forall|k: int| 0 <= k < self@.len() implies self@[k] == old_view.skip(count as int)[k] by {
                if count > 0 && tail as int + count > u64::MAX {
                    assert((self.tail + k) % (RING_SIZE as int) == (tail + count + k) % (RING_SIZE as int));
                }
            }
            assert(self@ =~= old_view.skip(count as int));
        }
        count
    }

    /// Number of unread events.
    pub fn len(&self) -> (r: usize)
        requires
            self.wf(),
        ensures
            r == self@.len(),
            r <= RING_SIZE,
    {
        self.head.wrapping_sub(self.tail) as usize
    }

    /// Total number of events ever written (wrapping at 2^64).
    pub fn total_written(&self) -> (r: u64)
        ensures
            r == self.spec_head(),
    {
        self.head
    }
}

/// The unread events after pushing `event`: appended at the end, the oldest dropped when
/// `RING_SIZE` events were already unread.
pub open spec fn ring_push(events: Seq<Event>, event: Event) -> Seq<Event> {
    if events.len() < RING_SIZE {
        events.push(event)
    } else {
        events.skip(1).push(event)
    }
}

/// Number of unread events in the kernel's ring (the instance is owned by the caller).
pub fn pending_count(ring: &EventRing) -> (r: usize)
    requires
        ring.wf(),
    ensures
        r == ring@.len(),
        r <= RING_SIZE,
{
    ring.len()
}


/// The unread events after pushing each of `pushes`, in order, onto an empty ring.
pub open spec fn ring_after(pushes: Seq<Event>) -> Seq<Event>
    decreases pushes.len(),
{
    if pushes.len() == 0 {
        Seq::empty()
    } else {
        ring_push(ring_after(pushes.drop_last()), pushes.last())
    }
}

/// A ring that has been pushed a sequence of events holds exactly the most recent
/// `RING_SIZE` of them (all of them when fewer were pushed), oldest first.
pub proof fn law_ring_keeps_latest(pushes: Seq<Event>)
    ensures
        ring_after(pushes) == pushes.skip(
            if pushes.len() > RING_SIZE { pushes.len() - RING_SIZE } else { 0 },
        ),
    decreases pushes.len(),
{
    if pushes.len() > 0 {
        let prev = pushes.drop_last();
        law_ring_keeps_latest(prev);
        let k = if prev.len() > RING_SIZE { prev.len() - RING_SIZE } else { 0int };
        let k2 = if pushes.len() > RING_SIZE { pushes.len() - RING_SIZE } else { 0int };
        if prev.len() < RING_SIZE {
            assert(prev.skip(k).push(pushes.last()) =~= pushes.skip(k2));
        } else {
            assert(prev.skip(k).skip(1).push(pushes.last()) =~= pushes.skip(k2));
        }
    }
}

/// The ring never holds more than `RING_SIZE` unread events.
pub proof fn law_ring_bounded(events: Seq<Event>, event: Event)
    requires
        events.len() <= RING_SIZE,
    ensures
        ring_push(events, event).len() <= RING_SIZE,
        ring_push(events, event).last() == event,
{
}

/// Reading everything and then pushing starts afresh: the ring then holds just that event.
pub proof fn law_read_all_then_push(events: Seq<Event>, event: Event)
    ensures
        ring_push(events.skip(events.len() as int), event) == seq![event],
{
    assert(events.skip(events.len() as int) =~= Seq::<Event>::empty());
    assert(Seq::<Event>::empty().push(event) =~= seq![event]);
}

} // verus!
