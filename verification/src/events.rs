//! The event log: typed kernel events recorded in the event ring buffer.
use vstd::prelude::*;
use crate::ring_buffer::{Event, EventRing, ring_push};

verus! {

/// Event types, numbered 0 to 7 in this order.
#[derive(Clone, Copy, Debug, PartialEq, Eq, Structural)]
pub enum EventType {
    SystemBoot,
    ProcessCreate,
    ProcessDestroy,
    MemAlloc,
    MemFree,
    ContextSwitch,
    PageFault,
    PageEvict,
}

impl EventType {
    /// The number recorded in an event of this type.
    pub open spec fn spec_code(self) -> u8 {
        match self {
            EventType::SystemBoot => 0,
            EventType::ProcessCreate => 1,
            EventType::ProcessDestroy => 2,
            EventType::MemAlloc => 3,
            EventType::MemFree => 4,
            EventType::ContextSwitch => 5,
            EventType::PageFault => 6,
            EventType::PageEvict => 7,
        }
    }

    /// The number recorded in an event of this type.
    pub fn code(self) -> (r: u8)
        ensures
            r == self.spec_code(),
    {
        match self {
            EventType::SystemBoot => 0,
            EventType::ProcessCreate => 1,
            EventType::ProcessDestroy => 2,
            EventType::MemAlloc => 3,
            EventType::MemFree => 4,
            EventType::ContextSwitch => 5,
            EventType::PageFault => 6,
            EventType::PageEvict => 7,
        }
    }
}

/// The label under which an event type number is listed.
pub open spec fn spec_label(event_type: u8) -> Seq<char> {
    if event_type == 0 {
        "BOOT"@
    } else if event_type == 1 {
        "PROC_CREATE"@
    } else if event_type == 2 {
        "PROC_DESTROY"@
    } else if event_type == 3 {
        "MEM_ALLOC"@
    } else if event_type == 4 {
        "MEM_FREE"@
    } else if event_type == 5 {
        "CTX_SWITCH"@
    } else if event_type == 6 {
        "PAGE_FAULT"@
    } else if event_type == 7 {
        "PAGE_EVICT"@
    } else {
        "UNKNOWN"@
    }
}

/// The label under which an event type number is listed ("UNKNOWN" past the known types).
pub fn event_label(event_type: u8) -> (r: &'static str)
    ensures
        r@ == spec_label(event_type),
{
    match event_type {
        0 => "BOOT",
        1 => "PROC_CREATE",
        2 => "PROC_DESTROY",
        3 => "MEM_ALLOC",
        4 => "MEM_FREE",
        5 => "CTX_SWITCH",
        6 => "PAGE_FAULT",
        7 => "PAGE_EVICT",
        _ => "UNKNOWN",
    }
}

/// The event that `log_event` records.
pub open spec fn make_event(event_type: u8, arg1: u64, arg2: u64, arg3: u64) -> Event {
    Event { event_type, _pad: [0u8, 0, 0, 0, 0, 0, 0], arg1, arg2, arg3 }
}

/// Logs an event to the event ring: its type number, zero padding and its three arguments
/// (for instance a size and an address for an allocation, a pid for a process).
pub fn log_event(ring: &mut EventRing, event_type: u8, arg1: u64, arg2: u64, arg3: u64)
    requires
        old(ring).wf(),
    ensures
        final(ring).wf(),
        final(ring)@ == ring_push(old(ring)@, make_event(event_type, arg1, arg2, arg3)),
        final(ring).spec_head() == vstd::wrapping::u64_specs::wrapping_add(old(ring).spec_head(), 1),
{
    let event = Event { event_type, _pad: [0u8, 0, 0, 0, 0, 0, 0], arg1, arg2, arg3 };
    ring.push_unchecked(event);
}

/// Logs a context switch from one task to another.
pub fn log_context_switch(ring: &mut EventRing, from_pid: u64, to_pid: u64)
    requires
        old(ring).wf(),
    ensures
        final(ring).wf(),
        final(ring)@ == ring_push(
            old(ring)@,
            make_event(EventType::ContextSwitch.spec_code(), from_pid, to_pid, 0),
        ),
        final(ring).spec_head() == vstd::wrapping::u64_specs::wrapping_add(old(ring).spec_head(), 1),
{
    log_event(ring, EventType::ContextSwitch.code(), from_pid, to_pid, 0);
}


/// Each event type is listed under its own name, and numbers past the eight types as unknown.
pub proof fn law_labels_name_types(t: u8)
    ensures
        spec_label(EventType::SystemBoot.spec_code()) == "BOOT"@,
        spec_label(EventType::ProcessCreate.spec_code()) == "PROC_CREATE"@,
        spec_label(EventType::ProcessDestroy.spec_code()) == "PROC_DESTROY"@,
        spec_label(EventType::MemAlloc.spec_code()) == "MEM_ALLOC"@,
        spec_label(EventType::MemFree.spec_code()) == "MEM_FREE"@,
        spec_label(EventType::ContextSwitch.spec_code()) == "CTX_SWITCH"@,
        spec_label(EventType::PageFault.spec_code()) == "PAGE_FAULT"@,
        spec_label(EventType::PageEvict.spec_code()) == "PAGE_EVICT"@,
        t > 7 ==> spec_label(t) == "UNKNOWN"@,
{
}

/// A logged event carries its type number and its three arguments in order, with zero padding;
/// a context switch is logged as type 5 with the pid switched from, then the pid switched to.
pub proof fn law_logged_event_fields(event_type: u8, arg1: u64, arg2: u64, arg3: u64)
    ensures
        make_event(event_type, arg1, arg2, arg3).event_type == event_type,
        make_event(event_type, arg1, arg2, arg3).arg1 == arg1,
        make_event(event_type, arg1, arg2, arg3).arg2 == arg2,
        make_event(event_type, arg1, arg2, arg3).arg3 == arg3,
        forall|i: int| 0 <= i < 7 ==> make_event(event_type, arg1, arg2, arg3)._pad@[i] == 0,
        EventType::ContextSwitch.spec_code() == 5,
{
}

/// The eight event types have distinct numbers 0 to 7, so the log tells them apart.
pub proof fn law_event_codes_distinct(a: EventType, b: EventType)
    ensures
        a.spec_code() <= 7,
        a.spec_code() == b.spec_code() ==> a == b,
{
}

} // verus!
