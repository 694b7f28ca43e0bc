//! Cooperative task scheduling: a fixed table of tasks, run round-robin.
use vstd::prelude::*;
use crate::ring_buffer::{EventRing, ring_push};
use crate::events::{EventType, log_event, log_context_switch, make_event};

verus! {

/// Number of task slots.
pub const MAX_TASKS: usize = 4;

/// Scheduling state of a task.
#[derive(Debug, Clone, Copy, PartialEq, Eq, Structural)]
pub enum TaskState {
    Ready,
    Running,
    Terminated,
}

/// A task slot.
#[derive(Debug, Clone, Copy)]
pub struct Task {
    /// Process id (1-based; 0 in an unused slot).
    pub pid: u64,
    /// Task name.
    pub name: &'static str,
    /// Scheduling state.
    pub state: TaskState,
}

/// The task table with the number of spawned tasks and the current task's slot.
pub struct Scheduler {
    tasks: Vec<Task>,
    task_count: usize,
    current: usize,
}

impl Scheduler {
    /// The task slots.
    pub closed spec fn view(&self) -> Seq<Task> {
        self.tasks@
    }

    /// Number of tasks spawned.
    pub closed spec fn spec_count(&self) -> usize {
        self.task_count
    }

    /// Slot of the current task.
    pub closed spec fn spec_current(&self) -> usize {
        self.current
    }

    /// The table has `MAX_TASKS` slots; spawned tasks fill the first slots, slot `i` with pid
    /// `i + 1`; the current slot is a spawned task's, or slot 0.
    pub open spec fn wf(&self) -> bool {
        &&& self@.len() == MAX_TASKS
        &&& self.spec_count() <= MAX_TASKS
        &&& forall|i: int| 0 <= i < self.spec_count() ==> #[trigger] self@[i].pid == i + 1
        &&& self.spec_current() == 0 || self.spec_current() < self.spec_count()
    }

    /// An empty table: all slots unused (pid 0, no name, terminated).
    pub fn new() -> (r: Self)
        ensures
            r.wf(),
            r.spec_count() == 0,
            r.spec_current() == 0,
            forall|i: int| 0 <= i < MAX_TASKS ==> #[trigger] r@[i].pid == 0 && r@[i].state == TaskState::Terminated
                && r@[i].name@ == Seq::<char>::empty(),
    {
        let mut tasks: Vec<Task> = Vec::new();
        let mut i: usize = 0;
        while i < MAX_TASKS
            invariant
                i <= MAX_TASKS,
                tasks@.len() == i,
                forall|k: int| 0 <= k < i ==> #[trigger] tasks@[k].pid == 0,
                forall|k: int| 0 <= k < i ==> #[trigger] tasks@[k].state == TaskState::Terminated,
                forall|k: int| 0 <= k < i ==> #[trigger] tasks@[k].name@ == Seq::<char>::empty(),
            decreases MAX_TASKS - i,
        {
            let name: &'static str = "";
            proof {
                reveal_strlit("");
                assert(name@ =~= Seq::<char>::empty());
            }
            tasks.push(Task { pid: 0, name, state: TaskState::Terminated });
            i = i + 1;
        }
        Scheduler { tasks, task_count: 0, current: 0 }
    }

    /// Spawns a task: it takes the next free slot, ready, with pid slot + 1, and its creation
    /// is logged. Returns the pid, or 0 when every slot is taken.
    pub fn spawn(&mut self, name: &'static str, events: &mut EventRing) -> (pid: u64)
        requires
            old(self).wf(),
            old(events).wf(),
        ensures
            final(self).wf(),
            final(events).wf(),
            final(self).spec_current() == old(self).spec_current(),
            old(self).spec_count() >= MAX_TASKS ==> pid == 0 && final(self)@ == old(self)@
                && final(self).spec_count() == old(self).spec_count() && final(events)@ == old(events)@,
            old(self).spec_count() < MAX_TASKS ==> {
                &&& pid == old(self).spec_count() + 1
                &&& final(self).spec_count() == old(self).spec_count() + 1
                &&& final(self)@ == old(self)@.update(
                    old(self).spec_count() as int,
                    Task { pid, name, state: TaskState::Ready },
                )
                &&& final(events)@ == ring_push(old(events)@, make_event(EventType::ProcessCreate.spec_code(), pid, 0, 0))
            },
    {
        if self.task_count >= MAX_TASKS {
            return 0;
        }
        let idx = self.task_count;
        self.tasks.set(idx, Task { pid: (idx + 1) as u64, name, state: TaskState::Ready });
        let pid = self.tasks[idx].pid;
        self.task_count += 1;
        log_event(events, EventType::ProcessCreate.code(), pid, 0, 0);
        pid
    }

    /// The slot of the next ready task after the current one, going round the spawned tasks
    /// (not back to the current one), if any.
    fn find_next_ready(&self) -> (r: Option<usize>)
        requires
            self.wf(),
            self.spec_count() >= 2,
        ensures
            r matches Some(n) ==> next_ready(self@, self.spec_count() as int, self.spec_current() as int, 1)
                == Some(n as int),
            r is None ==> next_ready(self@, self.spec_count() as int, self.spec_current() as int, 1) is None,
    {
        let mut k: usize = 1;
        while k < self.task_count
            invariant
                self.wf(),
                self.spec_count() >= 2,
                1 <= k <= self.spec_count(),
                next_ready(self@, self.spec_count() as int, self.spec_current() as int, k as int)
                    == next_ready(self@, self.spec_count() as int, self.spec_current() as int, 1),
            decreases self.task_count - k,
        {
            let idx = (self.current + k) % self.task_count;
            if self.tasks[idx].state == TaskState::Ready {
                return Some(idx);
            }
            k = k + 1;
        }
        None
    }

    /// Switches from the current task to the next ready one, round-robin over the spawned
    /// tasks: the current task becomes ready (unless it has terminated), the next ready task
    /// becomes running, and the switch is logged. Returns the pids switched from and to, or
    /// `None` (and changes nothing) when no other task is ready.
    pub fn yield_cpu(&mut self, events: &mut EventRing) -> (r: Option<(u64, u64)>)
        requires
            old(self).wf(),
            old(events).wf(),
        ensures
            final(self).wf(),
            final(events).wf(),
            final(self).spec_count() == old(self).spec_count(),
            ({
                let count = old(self).spec_count() as int;
                let prev = old(self).spec_current() as int;
                if count < 2 || next_ready(old(self)@, count, prev, 1) is None {
                    &&& r is None
                    &&& final(self)@ == old(self)@
                    &&& final(self).spec_current() == old(self).spec_current()
                    &&& final(events)@ == old(events)@
                } else {
                    let next = next_ready(old(self)@, count, prev, 1)->0;
                    let mid = if old(self)@[prev].state == TaskState::Terminated {
                        old(self)@
                    } else {
                        old(self)@.update(prev, Task { state: TaskState::Ready, ..old(self)@[prev] })
                    };
                    &&& next != prev
                    &&& old(self)@[next].state == TaskState::Ready
                    &&& final(self).spec_current() == next
                    &&& final(self)@ == mid.update(next, Task { state: TaskState::Running, ..mid[next] })
                    &&& r == Some((old(self)@[prev].pid, old(self)@[next].pid))
                    &&& final(events)@ == ring_push(
                        old(events)@,
                        make_event(EventType::ContextSwitch.spec_code(), old(self)@[prev].pid, old(self)@[next].pid, 0),
                    )
                }
            }),
    {
        if self.task_count < 2 {
            return None;
        }
        let found = self.find_next_ready();
        proof {
            lemma_next_ready(self@, self.spec_count() as int, self.spec_current() as int, 1);
        }
        let next = match found {
            Some(n) => n,
            None => {
                return None;
            },
        };
        let prev = self.current;
        let t = self.tasks[prev];
        if t.state != TaskState::Terminated {
            self.tasks.set(prev, Task { state: TaskState::Ready, ..t });
        }
        self.current = next;
        let u = self.tasks[next];
        self.tasks.set(next, Task { state: TaskState::Running, ..u });
        let from_pid = self.tasks[prev].pid;
        let to_pid = self.tasks[next].pid;
        log_context_switch(events, from_pid, to_pid);
        Some((from_pid, to_pid))
    }

    /// Terminates the current task and logs it; returns its pid.
    pub fn exit(&mut self, events: &mut EventRing) -> (pid: u64)
        requires
            old(self).wf(),
            old(events).wf(),
        ensures
            final(self).wf(),
            final(events).wf(),
            final(self).spec_count() == old(self).spec_count(),
            final(self).spec_current() == old(self).spec_current(),
            pid == old(self)@[old(self).spec_current() as int].pid,
            final(self)@ == old(self)@.update(
                old(self).spec_current() as int,
                Task { state: TaskState::Terminated, ..old(self)@[old(self).spec_current() as int] },
            ),
            final(events)@ == ring_push(old(events)@, make_event(EventType::ProcessDestroy.spec_code(), pid, 0, 0)),
    {
        let idx = self.current;
        let pid = self.tasks[idx].pid;
        let mut t = self.tasks[idx];
        t.state = TaskState::Terminated;
        self.tasks.set(idx, t);
        log_event(events, EventType::ProcessDestroy.code(), pid, 0, 0);
        pid
    }
}


/// The slot of the first ready task among `prev + k`, `prev + k + 1`, ... up to (not
/// including) `prev + count`, taken modulo `count`.
pub open spec fn next_ready(tasks: Seq<Task>, count: int, prev: int, k: int) -> Option<int>
    decreases count - k,
{
    if k >= count {
        None
    } else if tasks[(prev + k) % count].state == TaskState::Ready {
        Some((prev + k) % count)
    } else {
        next_ready(tasks, count, prev, k + 1)
    }
}

/// The next ready slot is a spawned task's slot, holds a ready task, and is not `prev`.
pub proof fn lemma_next_ready(tasks: Seq<Task>, count: int, prev: int, k: int)
    requires
        0 <= prev < count,
        1 <= k,
    ensures
        next_ready(tasks, count, prev, k) matches Some(n) ==> 0 <= n < count && n != prev
            && tasks[n].state == TaskState::Ready,
    decreases count - k,
{
    if k < count {
        if tasks[(prev + k) % count].state != TaskState::Ready {
            lemma_next_ready(tasks, count, prev, k + 1);
        } else {
            let x = prev + k;
            assert(x % count != prev) by (nonlinear_arith)
                requires
                    0 <= prev < count,
                    1 <= k < count,
                    x == prev + k,
            {
                if x < count {
                    assert(x % count == x);
                } else {
                    assert(x == count + (x - count));
                    assert(x % count == x - count);
                }
            }
        }
    }
}

/// The slot `i` places after `prev`, going round `count` slots.
pub open spec fn slot_after(prev: int, i: int, count: int) -> int {
    (prev + i) % count
}

/// The task in that slot is ready.
pub open spec fn ready_after(tasks: Seq<Task>, prev: int, i: int, count: int) -> bool {
    tasks[slot_after(prev, i, count)].state == TaskState::Ready
}

/// The task a yield switches to is the first ready one going round from the current slot:
/// every slot passed over on the way holds a task that is not ready. When none is found, no
/// slot but the current one holds a ready task.
pub proof fn law_yield_picks_first_ready(tasks: Seq<Task>, count: int, prev: int, k: int)
    requires
        0 <= prev < count,
        1 <= k <= count,
    ensures
        next_ready(tasks, count, prev, k) matches Some(n) ==> exists|d: int|
            k <= d < count && n == #[trigger] slot_after(prev, d, count) && ready_after(tasks, prev, d, count)
                && forall|i: int| k <= i < d ==> !#[trigger] ready_after(tasks, prev, i, count),
        next_ready(tasks, count, prev, k) is None ==> forall|i: int|
            k <= i < count ==> !#[trigger] ready_after(tasks, prev, i, count),
    decreases count - k,
{
    if k < count {
        if !ready_after(tasks, prev, k, count) {
            law_yield_picks_first_ready(tasks, count, prev, k + 1);
            if let Some(n) = next_ready(tasks, count, prev, k) {
                let d = choose|d: int|
                    k + 1 <= d < count && n == #[trigger] slot_after(prev, d, count) && ready_after(tasks, prev, d, count)
                        && forall|i: int| k + 1 <= i < d ==> !#[trigger] ready_after(tasks, prev, i, count);
                assert forall|i: int| k <= i < d implies !#[trigger] ready_after(tasks, prev, i, count) by {
                    if i == k {
                    } else {
                        assert(k + 1 <= i < d);
                    }
                }
            }
        } else {
            assert(next_ready(tasks, count, prev, k) == Some(slot_after(prev, k, count)));
            assert(forall|i: int| k <= i < k ==> !#[trigger] ready_after(tasks, prev, i, count));
        }
    }
}

/// Spawned tasks hold the first slots, slot `i` with pid `i + 1`, never more than
/// `MAX_TASKS` of them, so pids are distinct.
pub proof fn law_spawned_pids(s: Scheduler)
    requires
        s.wf(),
    ensures
        s.spec_count() <= MAX_TASKS,
        forall|i: int| 0 <= i < s.spec_count() ==> #[trigger] s@[i].pid == i + 1,
        forall|i: int, j: int| 0 <= i < j < s.spec_count() ==> s@[i].pid != s@[j].pid,
        s.spec_current() == 0 || s.spec_current() < s.spec_count(),
{
    assert forall|i: int, j: int| 0 <= i < j < s.spec_count() implies s@[i].pid != s@[j].pid by {
        assert(s@[i].pid == i + 1);
        assert(s@[j].pid == j + 1);
    }
}

} // verus!
