use kernel::ring_buffer::{Event, EventRing};
use kernel::task::Scheduler;

#[test]
fn spawn_assigns_sequential_pids() {
    let mut ring = EventRing::new();
    let mut s = Scheduler::new();
    assert_eq!(s.spawn("TaskA", &mut ring), 1);
    assert_eq!(s.spawn("TaskB", &mut ring), 2);
    assert_eq!(s.spawn("TaskC", &mut ring), 3);
    assert_eq!(s.spawn("TaskD", &mut ring), 4);
    assert_eq!(s.spawn("TaskE", &mut ring), 0);
    assert_eq!(ring.len(), 4);
    let mut out = [Event::zero(); 4];
    ring.read(&mut out);
    assert_eq!((out[1].event_type, out[1].arg1), (1, 2));
}

#[test]
fn yield_round_robin() {
    let mut ring = EventRing::new();
    let mut s = Scheduler::new();
    s.spawn("TaskA", &mut ring);
    assert_eq!(s.yield_cpu(&mut ring), None);
    s.spawn("TaskB", &mut ring);
    assert_eq!(s.yield_cpu(&mut ring), Some((1, 2)));
    assert_eq!(s.yield_cpu(&mut ring), Some((2, 1)));
    assert_eq!(s.yield_cpu(&mut ring), Some((1, 2)));
    let mut out = [Event::zero(); 8];
    assert_eq!(ring.read(&mut out), 5);
    assert_eq!((out[2].event_type, out[2].arg1, out[2].arg2), (5, 1, 2));
}

#[test]
fn exit_terminates_current() {
    let mut ring = EventRing::new();
    let mut s = Scheduler::new();
    assert_eq!(s.exit(&mut ring), 0);
    s.spawn("TaskA", &mut ring);
    s.spawn("TaskB", &mut ring);
    s.yield_cpu(&mut ring);
    assert_eq!(s.exit(&mut ring), 2);
    let mut out = [Event::zero(); 8];
    let n = ring.read(&mut out);
    assert_eq!((out[n - 1].event_type, out[n - 1].arg1), (2, 2));
}

#[test]
fn terminated_task_is_never_run_again() {
    let mut ring = EventRing::new();
    let mut s = Scheduler::new();
    s.spawn("TaskA", &mut ring);
    s.spawn("TaskB", &mut ring);
    s.spawn("TaskC", &mut ring);
    assert_eq!(s.yield_cpu(&mut ring), Some((1, 2)));
    assert_eq!(s.exit(&mut ring), 2);
    // B has exited: the switch goes on to C, then A, then skips B.
    assert_eq!(s.yield_cpu(&mut ring), Some((2, 3)));
    assert_eq!(s.yield_cpu(&mut ring), Some((3, 1)));
    assert_eq!(s.yield_cpu(&mut ring), Some((1, 3)));
    assert_eq!(s.exit(&mut ring), 3);
    // Only A is left ready, and it is not the current task.
    assert_eq!(s.yield_cpu(&mut ring), Some((3, 1)));
    // A is the only live task: there is no other ready task to switch to.
    assert_eq!(s.yield_cpu(&mut ring), None);
}
