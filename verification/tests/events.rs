use kernel::events::{self, EventType};
use kernel::ring_buffer::{Event, EventRing};

#[test]
fn event_type_numbers() {
    assert_eq!(EventType::SystemBoot.code(), 0);
    assert_eq!(EventType::ProcessCreate.code(), 1);
    assert_eq!(EventType::ProcessDestroy.code(), 2);
    assert_eq!(EventType::MemAlloc.code(), 3);
    assert_eq!(EventType::MemFree.code(), 4);
    assert_eq!(EventType::ContextSwitch.code(), 5);
    assert_eq!(EventType::PageFault.code(), 6);
    assert_eq!(EventType::PageEvict.code(), 7);
}

#[test]
fn labels() {
    assert_eq!(events::event_label(0), "BOOT");
    assert_eq!(events::event_label(5), "CTX_SWITCH");
    assert_eq!(events::event_label(7), "PAGE_EVICT");
    assert_eq!(events::event_label(8), "UNKNOWN");
    assert_eq!(events::event_label(255), "UNKNOWN");
}

#[test]
fn log_event_records_fields() {
    let mut r = EventRing::new();
    events::log_event(&mut r, EventType::MemAlloc.code(), 64, 0x1000, 9);
    events::log_context_switch(&mut r, 1, 2);
    let mut out = [Event::zero(); 4];
    assert_eq!(r.read(&mut out), 2);
    assert_eq!(out[0].event_type, 3);
    assert_eq!((out[0].arg1, out[0].arg2, out[0].arg3), (64, 0x1000, 9));
    assert_eq!(out[0]._pad, [0u8; 7]);
    assert_eq!(out[1].event_type, 5);
    assert_eq!((out[1].arg1, out[1].arg2, out[1].arg3), (1, 2, 0));
}
