//! The mathematical model of the running system.
//!
//! [`State`] holds, as sequences, everything the scheduler keeps: the slot
//! buffer and free queue of every software task, the ready queue of every
//! priority level, the pending flags of the hardware tasks, the stack of
//! preempted contexts and the wait-lists of the monotonic clocks. The
//! contracts of [`crate::scheduler::Scheduler`] are stated over the
//! transition functions defined here.

use crate::app::App;
use vstd::prelude::*;

verus! {

/// One queued instance of a software task: which task, and the slot that
/// holds its inputs.
#[derive(Clone, Copy, Debug, PartialEq, Eq, Structural)]
pub struct ReadyEntry {
    pub task: usize,
    pub index: u8,
}

/// What a slot of a task's slot buffer currently is.
#[derive(Clone, Copy, Debug, PartialEq, Eq)]
pub enum Slot<T> {
    /// Unused; its index sits in the task's free queue.
    Free,
    /// Taken from the free queue and not yet ready: its instance is in
    /// flight, waiting on a clock's wait-list.
    Claimed,
    /// Holds the inputs of an instance that sits in a ready queue.
    Ready(T),
}

/// A context that is executing or has been preempted.
#[derive(Clone, Copy, Debug, PartialEq, Eq, Structural)]
pub enum Frame {
    /// The handler of a dispatcher interrupt, which drains the ready queue
    /// of its level.
    Dispatcher { level: u8 },
    /// The handler of the interrupt of a hardware task, which calls the task
    /// once; `ran` says whether it has.
    Trampoline { task: usize, level: u8, ran: bool },
    /// A software task called by the dispatcher below it.
    Software { task: usize, level: u8 },
    /// A hardware task called by the trampoline below it.
    Hardware { task: usize, level: u8 },
    /// A critical section on a shared resource.
    Lock { resource: usize, level: u8 },
}

/// What the system does next.
#[derive(Clone, Copy, Debug, PartialEq, Eq)]
pub enum Step<T> {
    /// The dispatcher of a priority level is entered.
    EnterDispatcher { priority: u8 },
    /// The trampoline of a hardware task is entered.
    EnterTrampoline { task: usize, priority: u8 },
    /// A task body is to run; its end is reported when it returns.
    Run(Invocation<T>),
    /// The handler on top returns to what it interrupted.
    Exit { priority: u8 },
}

/// A spawn that waits for its deadline.
#[derive(Clone, Copy, Debug, PartialEq, Eq)]
pub struct Timer<T> {
    pub deadline: u64,
    pub handle: u64,
    pub task: usize,
    pub index: u8,
    pub input: T,
}

/// A task body that is to run now: the task, the priority its context
/// carries, and for a software task the inputs moved out of its slot.
#[derive(Clone, Copy, Debug, PartialEq, Eq)]
pub enum Invocation<T> {
    Software { task: usize, index: u8, input: T, priority: u8 },
    Hardware { task: usize, priority: u8 },
}

/// Number of priority levels, level 0 (idle) included.
pub const LEVELS: usize = 256;

impl Frame {
    /// The priority at which the system runs while this frame is on top.
    pub open spec fn level(self) -> int {
        match self {
            Frame::Dispatcher { level } => level as int,
            Frame::Trampoline { level, .. } => level as int,
            Frame::Software { level, .. } => level as int,
            Frame::Hardware { level, .. } => level as int,
            Frame::Lock { level, .. } => level as int,
        }
    }

    /// Whether this frame is a task body.
    pub open spec fn is_task(self) -> bool {
        self is Software || self is Hardware
    }

    /// Whether this frame is the handler of an interrupt.
    pub open spec fn is_handler(self) -> bool {
        self is Dispatcher || self is Trampoline
    }

    /// Whether this frame is a critical section on resource `r`.
    pub open spec fn locks(self, r: int) -> bool {
        self matches Frame::Lock { resource, .. } && resource == r
    }
}

/// Why a spawn did not happen.
#[derive(Clone, Copy, Debug, PartialEq, Eq, Structural)]
pub enum SpawnError {
    /// Every slot of the task is taken.
    CapacityExceeded,
    /// There is no such task.
    UnknownTask,
    /// There is no such clock.
    UnknownClock,
}

/// Why a critical section was not entered or left.
#[derive(Clone, Copy, Debug, PartialEq, Eq, Structural)]
pub enum LockError {
    /// There is no such resource.
    UnknownResource,
    /// The executing context has not declared the resource.
    NotAccessible,
    /// The resource is already held.
    AlreadyHeld,
    /// The executing context is not in a critical section.
    NothingHeld,
}

/// Why a task could not be ended.
#[derive(Clone, Copy, Debug, PartialEq, Eq, Structural)]
pub enum ExitError {
    /// No task is executing.
    NothingRunning,
    /// The executing task is still in a critical section.
    ResourceHeld,
}

/// Why a scheduled spawn was not cancelled.
#[derive(Clone, Copy, Debug, PartialEq, Eq, Structural)]
pub enum CancelError {
    /// There is no such clock.
    UnknownClock,
    /// No spawn with this handle is waiting: it has fired, was cancelled or
    /// never existed.
    NotPending,
}

/// The state of the running system.
pub struct State<T> {
    /// Slot buffer of each software task.
    pub slots: Seq<Seq<Slot<T>>>,
    /// Free queue of each software task, oldest index first.
    pub free: Seq<Seq<u8>>,
    /// Ready queue of each priority level, oldest entry first.
    pub ready: Seq<Seq<ReadyEntry>>,
    /// Whether the interrupt of each hardware task is pending.
    pub pending: Seq<bool>,
    /// The executing context on top of those it preempted.
    pub stack: Seq<Frame>,
    /// Wait-list of each monotonic clock, earliest deadline first.
    pub timers: Seq<Seq<Timer<T>>>,
    /// The handle the next scheduled spawn gets.
    pub next_handle: int,
}

// ---------------------------------------------------------------------
// Counting
// ---------------------------------------------------------------------
/// Number of free slots in a slot buffer.
pub open spec fn count_free<T>(slots: Seq<Slot<T>>) -> nat
    decreases slots.len(),
{
    if slots.len() == 0 {
        0
    } else {
        count_free(slots.drop_last()) + if slots.last() is Free {
            1nat
        } else {
            0nat
        }
    }
}

/// Number of claimed slots in a slot buffer.
pub open spec fn count_claimed<T>(slots: Seq<Slot<T>>) -> nat
    decreases slots.len(),
{
    if slots.len() == 0 {
        0
    } else {
        count_claimed(slots.drop_last()) + if slots.last() is Claimed {
            1nat
        } else {
            0nat
        }
    }
}

/// Number of slots in a slot buffer that hold a ready instance.
pub open spec fn count_ready<T>(slots: Seq<Slot<T>>) -> nat
    decreases slots.len(),
{
    if slots.len() == 0 {
        0
    } else {
        count_ready(slots.drop_last()) + if slots.last() is Ready {
            1nat
        } else {
            0nat
        }
    }
}

/// Number of entries of a ready queue that belong to task `t`.
pub open spec fn count_task(queue: Seq<ReadyEntry>, t: int) -> nat
    decreases queue.len(),
{
    if queue.len() == 0 {
        0
    } else {
        count_task(queue.drop_last(), t) + if queue.last().task == t {
            1nat
        } else {
            0nat
        }
    }
}

/// Number of entries of a wait-list that belong to task `t`.
pub open spec fn count_waiting<T>(list: Seq<Timer<T>>, t: int) -> nat
    decreases list.len(),
{
    if list.len() == 0 {
        0
    } else {
        count_waiting(list.drop_last(), t) + if list.last().task == t {
            1nat
        } else {
            0nat
        }
    }
}

/// Number of entries of the first `n` wait-lists that belong to task `t`.
pub open spec fn total_waiting<T>(timers: Seq<Seq<Timer<T>>>, t: int, n: int) -> nat
    decreases n,
{
    if n <= 0 {
        0
    } else {
        total_waiting(timers, t, n - 1) + count_waiting(timers[n - 1], t)
    }
}

/// Number of ready instances among the first `n` software tasks that run at
/// priority `level`.
pub open spec fn level_ready<T>(app: &App, slots: Seq<Seq<Slot<T>>>, level: int, n: int) -> nat
    decreases n,
{
    if n <= 0 {
        0
    } else {
        level_ready(app, slots, level, n - 1) + if app.priority_of(n - 1) == level {
            count_ready(slots[n - 1])
        } else {
            0nat
        }
    }
}

/// Sum of the capacities of the first `n` software tasks that run at
/// priority `level`.
pub open spec fn level_capacity(app: &App, level: int, n: int) -> nat {
    app.level_capacity(level, n)
}

impl<T> State<T> {
    // -----------------------------------------------------------------
    // What is observed of a state
    // -----------------------------------------------------------------
    /// Free slots of software task `t`.
    pub open spec fn free_count(self, t: int) -> nat {
        self.free[t].len()
    }

    /// Instances of software task `t` that wait in its ready queue.
    pub open spec fn ready_count(self, app: &App, t: int) -> nat {
        count_task(self.ready[app.priority_of(t)], t)
    }

    /// Instances of software task `t` that are in flight: spawned for a
    /// deadline and still waiting on a wait-list, each holding a slot.
    pub open spec fn in_flight_count(self, t: int) -> nat {
        total_waiting(self.timers, t, self.timers.len() as int)
    }

    /// The priority at which the system currently runs: that of the frame on
    /// top of the stack, or 0 when only the idle context runs.
    pub open spec fn current_level(self) -> int {
        if self.stack.len() == 0 {
            0
        } else {
            self.stack.last().level()
        }
    }

    /// The task and the inputs of a queued instance.
    pub open spec fn waiting_at(self, e: ReadyEntry) -> (usize, T) {
        (e.task, self.slots[e.task as int][e.index as int]->Ready_0)
    }

    /// The inputs that wait at priority `level`, in the order in which they
    /// will be dispatched, each with its task.
    pub open spec fn waiting(self, level: int) -> Seq<(usize, T)> {
        Seq::new(self.ready[level].len(), |k: int| self.waiting_at(self.ready[level][k]))
    }

    /// Whether a slot of task `t` is held by an entry of some wait-list.
    pub open spec fn timer_holds(self, t: int, index: int) -> bool {
        exists|m: int, k: int|
            0 <= m < self.timers.len() && 0 <= k < self.timers[m].len() && (
            #[trigger] self.timers[m][k]).task == t && self.timers[m][k].index == index
    }

    // -----------------------------------------------------------------
    // Well-formedness
    // -----------------------------------------------------------------
    /// The tables have one entry per task, level, hardware task and clock.
    pub open spec fn wf_tables(self, app: &App) -> bool {
        &&& self.slots.len() == app.software_tasks@.len()
        &&& self.free.len() == app.software_tasks@.len()
        &&& self.ready.len() == LEVELS
        &&& self.pending.len() == app.hardware_tasks@.len()
        &&& self.timers.len() == app.monotonics@.len()
    }

    /// The slot buffer and the free queue of task `t` agree.
    pub open spec fn wf_task(self, app: &App, t: int) -> bool {
        &&& self.slots[t].len() == app.capacity_of(t)
        &&& self.free[t].no_duplicates()
        &&& forall|k: int|
            0 <= k < self.free[t].len() ==> (#[trigger] self.free[t][k] as int) < app.capacity_of(t)
                && self.slots[t][self.free[t][k] as int] is Free
        &&& self.free[t].len() == count_free(self.slots[t])
        &&& count_task(self.ready[app.priority_of(t)], t) == count_ready(self.slots[t])
    }

    /// The ready queue of `level` holds instances of tasks of that level
    /// only, each once, each with its inputs in place.
    pub open spec fn wf_level(self, app: &App, level: int) -> bool {
        &&& self.ready[level].no_duplicates()
        &&& forall|k: int|
            0 <= k < self.ready[level].len() ==> self.entry_valid(
                app,
                level,
                #[trigger] self.ready[level][k],
            )
        &&& self.ready[level].len() == level_ready(
            app,
            self.slots,
            level,
            app.software_tasks@.len() as int,
        )
    }

    /// Entry `e` of the ready queue of `level` names a task of that level
    /// and a slot that holds inputs.
    pub open spec fn entry_valid(self, app: &App, level: int, e: ReadyEntry) -> bool {
        &&& (e.task as int) < app.software_tasks@.len()
        &&& app.priority_of(e.task as int) == level
        &&& (e.index as int) < app.capacity_of(e.task as int)
        &&& self.slots[e.task as int][e.index as int] is Ready
    }

    /// Slot buffers, free queues and ready queues are consistent.
    pub open spec fn wf_queues(self, app: &App) -> bool {
        &&& self.wf_tables(app)
        &&& forall|t: int| 0 <= t < app.software_tasks@.len() ==> #[trigger] self.wf_task(app, t)
        &&& forall|level: int| 0 <= level < LEVELS ==> #[trigger] self.wf_level(app, level)
    }

    /// Each wait-list is ordered by deadline, and every waiting spawn holds
    /// a claimed slot of its own and a handle of its own.
    pub open spec fn wf_timers(self, app: &App) -> bool {
        &&& self.timers.len() == app.monotonics@.len()
        &&& 0 <= self.next_handle <= u64::MAX
        &&& forall|m: int, i: int, j: int|
            0 <= m < self.timers.len() && 0 <= i < j < self.timers[m].len() ==> (
            #[trigger] self.timers[m][i]).deadline <= (#[trigger] self.timers[m][j]).deadline
        &&& forall|m: int, k: int|
            0 <= m < self.timers.len() && 0 <= k < self.timers[m].len() ==> self.timer_valid(
                app,
                #[trigger] self.timers[m][k],
            )
        &&& forall|m: int, k: int, m2: int, k2: int|
            0 <= m < self.timers.len() && 0 <= k < self.timers[m].len() && 0 <= m2
                < self.timers.len() && 0 <= k2 < self.timers[m2].len() && (m != m2 || k != k2)
                ==> timers_apart(#[trigger] self.timers[m][k], #[trigger] self.timers[m2][k2])
    }

    /// A waiting spawn names a task, a claimed slot of it and a handle that
    /// has been given out.
    pub open spec fn timer_valid(self, app: &App, e: Timer<T>) -> bool {
        &&& (e.task as int) < app.software_tasks@.len()
        &&& (e.index as int) < app.capacity_of(e.task as int)
        &&& self.slots[e.task as int][e.index as int] is Claimed
        &&& e.handle < self.next_handle
    }

    /// The claimed slots of each task are as many as its instances in
    /// flight.
    pub open spec fn wf_claims(self, app: &App) -> bool {
        forall|t: int|
            0 <= t < app.software_tasks@.len() ==> count_claimed(#[trigger] self.slots[t])
                == self.in_flight_count(t)
    }

    /// The state is one that the system can be in.
    pub open spec fn wf(self, app: &App) -> bool {
        &&& self.wf_queues(app)
        &&& self.wf_timers(app)
        &&& self.wf_claims(app)
        &&& stack_wf(app, self.stack)
    }
}

// ---------------------------------------------------------------------
// Wait-lists
// ---------------------------------------------------------------------
/// Number of leading entries of a wait-list whose deadline is at or before
/// `instant`. In a list ordered by deadline these are all such entries.
pub open spec fn due_count<T>(list: Seq<Timer<T>>, instant: int) -> int
    decreases list.len(),
{
    if list.len() == 0 || list[0].deadline > instant {
        0
    } else {
        1 + due_count(list.skip(1), instant)
    }
}

/// Position of the first entry of a wait-list with the given handle, or -1.
pub open spec fn find_handle<T>(list: Seq<Timer<T>>, handle: int) -> int
    decreases list.len(),
{
    if list.len() == 0 {
        -1
    } else if list[0].handle == handle {
        0
    } else {
        let rest = find_handle(list.skip(1), handle);
        if rest < 0 {
            -1
        } else {
            rest + 1
        }
    }
}

// ---------------------------------------------------------------------
// Transitions
// ---------------------------------------------------------------------
impl<T> State<T> {
    /// The state before anything has happened: every slot free, every queue
    /// and wait-list empty, nothing pending, only the idle context running.
    pub open spec fn initial(app: &App) -> Self {
        State {
            slots: Seq::new(
                app.software_tasks@.len(),
                |t: int| Seq::new(app.capacity_of(t) as nat, |i: int| Slot::Free),
            ),
            free: Seq::new(
                app.software_tasks@.len(),
                |t: int| Seq::new(app.capacity_of(t) as nat, |i: int| i as u8),
            ),
            ready: Seq::new(LEVELS as nat, |l: int| Seq::empty()),
            pending: Seq::new(app.hardware_tasks@.len(), |h: int| false),
            stack: Seq::empty(),
            timers: Seq::new(app.monotonics@.len(), |m: int| Seq::empty()),
            next_handle: 0,
        }
    }

    /// Slot `index` of task `t` becomes `v`.
    pub open spec fn set_slot(self, t: int, index: int, v: Slot<T>) -> Self {
        State { slots: self.slots.update(t, self.slots[t].update(index, v)), ..self }
    }

    /// The oldest free slot of task `t` is taken from its free queue.
    pub open spec fn claim(self, t: int) -> Self {
        State { free: self.free.update(t, self.free[t].skip(1)), ..self }.set_slot(
            t,
            self.free[t][0] as int,
            Slot::Claimed,
        )
    }

    /// A claimed slot of task `t` receives `input` and joins the ready queue
    /// of the task's priority level.
    pub open spec fn commit(self, app: &App, t: int, index: int, input: T) -> Self {
        let level = app.priority_of(t);
        State {
            ready: self.ready.update(
                level,
                self.ready[level].push(ReadyEntry { task: t as usize, index: index as u8 }),
            ),
            ..self
        }.set_slot(t, index, Slot::Ready(input))
    }

    /// The oldest entry of the ready queue of `level` leaves it; its inputs
    /// are moved out and its slot goes back to the free queue of its task.
    pub open spec fn take(self, level: int) -> Self {
        let e = self.ready[level][0];
        State {
            ready: self.ready.update(level, self.ready[level].skip(1)),
            free: self.free.update(e.task as int, self.free[e.task as int].push(e.index)),
            ..self
        }.set_slot(e.task as int, e.index as int, Slot::Free)
    }

    /// A claimed slot of task `t` goes back to its free queue.
    pub open spec fn release(self, t: int, index: int) -> Self {
        State { free: self.free.update(t, self.free[t].push(index as u8)), ..self }.set_slot(
            t,
            index,
            Slot::Free,
        )
    }

    /// Spawning task `t` with `input`: the oldest free slot receives the
    /// input and is queued at the task's priority level. With no free slot
    /// nothing changes.
    pub open spec fn spawn(self, app: &App, t: int, input: T) -> (Self, Result<u8, SpawnError>) {
        if !(0 <= t < app.software_tasks@.len()) {
            (self, Err(SpawnError::UnknownTask))
        } else if self.free[t].len() == 0 {
            (self, Err(SpawnError::CapacityExceeded))
        } else {
            (self.claim(t).commit(app, t, self.free[t][0] as int, input), Ok(self.free[t][0]))
        }
    }

    /// The interrupt of hardware task `h` becomes pending; if it already is,
    /// nothing changes.
    pub open spec fn pend(self, h: int) -> Self {
        State { pending: self.pending.update(h, true), ..self }
    }

    /// The first of the first `n` hardware tasks that is pending at priority
    /// `level`, or -1.
    pub open spec fn first_pending(self, app: &App, level: int, n: int) -> int
        decreases n,
    {
        if n <= 0 {
            -1
        } else {
            let earlier = self.first_pending(app, level, n - 1);
            if earlier >= 0 {
                earlier
            } else if self.pending[n - 1] && app.hardware_priority_of(n - 1) == level {
                n - 1
            } else {
                -1
            }
        }
    }

    /// Whether something waits to run at priority `level`.
    pub open spec fn runnable(self, app: &App, level: int) -> bool {
        self.ready[level].len() > 0 || self.first_pending(
            app,
            level,
            app.hardware_tasks@.len() as int,
        ) >= 0
    }

    /// The highest priority in `above + 1 ..= level` at which something
    /// waits to run, or 0.
    pub open spec fn top_runnable(self, app: &App, above: int, level: int) -> int
        decreases level,
    {
        if level <= above || level <= 0 {
            0
        } else if self.runnable(app, level) {
            level
        } else {
            self.top_runnable(app, above, level - 1)
        }
    }

    /// The priority level that preempts the executing context, or 0 when
    /// nothing does.
    pub open spec fn next_level(self, app: &App) -> int {
        self.top_runnable(app, self.current_level(), LEVELS - 1)
    }

    /// The inputs that the dispatcher of `level` hands to the task it calls
    /// next.
    pub open spec fn head_invocation(self, level: int) -> Invocation<T> {
        let e = self.ready[level][0];
        Invocation::Software {
            task: e.task,
            index: e.index,
            input: self.slots[e.task as int][e.index as int]->Ready_0,
            priority: level as u8,
        }
    }

    /// What happens next, one step at a time.
    ///
    /// When something waits above the current priority, the interrupt of
    /// the highest such level is taken: the trampoline of the first pending
    /// hardware task of that level, in the order of declaration, or else
    /// the level's dispatcher. Otherwise the handler on top goes on: a
    /// dispatcher calls the task of the oldest entry of its ready queue,
    /// moving the inputs out and freeing the slot at once, and returns when
    /// the queue is empty; a trampoline calls its task once and then
    /// returns. While a task body or a critical section is on top, and when
    /// only the idle context runs, nothing happens.
    pub open spec fn next(self, app: &App) -> (Self, Option<Step<T>>) {
        let level = self.next_level(app);
        let h = self.first_pending(app, level, app.hardware_tasks@.len() as int);
        if level != 0 {
            if h >= 0 {
                (
                    State {
                        pending: self.pending.update(h, false),
                        stack: self.stack.push(
                            Frame::Trampoline { task: h as usize, level: level as u8, ran: false },
                        ),
                        ..self
                    },
                    Some(Step::EnterTrampoline { task: h as usize, priority: level as u8 }),
                )
            } else {
                (
                    State { stack: self.stack.push(Frame::Dispatcher { level: level as u8 }), ..self },
                    Some(Step::EnterDispatcher { priority: level as u8 }),
                )
            }
        } else if self.stack.len() == 0 {
            (self, None)
        } else {
            match self.stack.last() {
                Frame::Dispatcher { level } => {
                    if self.ready[level as int].len() > 0 {
                        (
                            State {
                                stack: self.stack.push(
                                    Frame::Software { task: self.ready[level as int][0].task, level },
                                ),
                                ..self.take(level as int)
                            },
                            Some(Step::Run(self.head_invocation(level as int))),
                        )
                    } else {
                        (
                            State { stack: self.stack.drop_last(), ..self },
                            Some(Step::Exit { priority: level }),
                        )
                    }
                },
                Frame::Trampoline { task, level, ran } => {
                    if !ran {
                        (
                            State { stack: self.stack.push(Frame::Hardware { task, level }), ..self },
                            Some(Step::Run(Invocation::Hardware { task, priority: level })),
                        )
                    } else {
                        (
                            State { stack: self.stack.drop_last(), ..self },
                            Some(Step::Exit { priority: level }),
                        )
                    }
                },
                _ => (self, None),
            }
        }
    }

    /// The executing task ends and its handler resumes.
    pub open spec fn finish(self) -> (Self, Result<(), ExitError>) {
        if self.stack.len() == 0 {
            (self, Err(ExitError::NothingRunning))
        } else {
            match self.stack.last() {
                Frame::Software { .. } => (State { stack: self.stack.drop_last(), ..self }, Ok(())),
                Frame::Hardware { task, level } => (
                    State {
                        stack: self.stack.drop_last().drop_last().push(
                            Frame::Trampoline { task, level, ran: true },
                        ),
                        ..self
                    },
                    Ok(()),
                ),
                Frame::Lock { .. } => (self, Err(ExitError::ResourceHeld)),
                _ => (self, Err(ExitError::NothingRunning)),
            }
        }
    }

    /// The executing context enters a critical section on resource `r`. The
    /// system then runs at the higher of the current priority and the
    /// resource's ceiling, which is what is returned.
    pub open spec fn lock(self, app: &App, r: int) -> (Self, Result<u8, LockError>) {
        let level = raised_level(app, self.current_level(), r);
        if !(0 <= r < app.shared_resources@.len()) {
            (self, Err(LockError::UnknownResource))
        } else if !owner_accesses(app, self.stack, self.stack.len() as int, r) {
            (self, Err(LockError::NotAccessible))
        } else if holds_lock(self.stack, self.stack.len() as int, r) {
            (self, Err(LockError::AlreadyHeld))
        } else {
            (
                State {
                    stack: self.stack.push(Frame::Lock { resource: r as usize, level: level as u8 }),
                    ..self
                },
                Ok(level as u8),
            )
        }
    }

    /// The executing context leaves its innermost critical section; the
    /// priority falls back to what it was on entry. Returns the resource.
    pub open spec fn unlock(self) -> (Self, Result<usize, LockError>) {
        if self.stack.len() > 0 && self.stack.last() is Lock {
            (
                State { stack: self.stack.drop_last(), ..self },
                Ok(self.stack.last()->Lock_resource),
            )
        } else {
            (self, Err(LockError::NothingHeld))
        }
    }

    /// Scheduling a spawn of task `t` on clock `m` for `instant`: a slot is
    /// claimed and an entry joins the wait-list behind every entry whose
    /// deadline is not later.
    pub open spec fn spawn_at(self, app: &App, m: int, t: int, instant: u64, input: T) -> (
        Self,
        Result<u64, SpawnError>,
    ) {
        if !(0 <= t < app.software_tasks@.len()) {
            (self, Err(SpawnError::UnknownTask))
        } else if !(0 <= m < app.monotonics@.len()) {
            (self, Err(SpawnError::UnknownClock))
        } else if self.free[t].len() == 0 {
            (self, Err(SpawnError::CapacityExceeded))
        } else {
            let entry = Timer {
                deadline: instant,
                handle: self.next_handle as u64,
                task: t as usize,
                index: self.free[t][0],
                input,
            };
            let claimed = self.claim(t);
            (
                State {
                    timers: self.timers.update(
                        m,
                        self.timers[m].insert(due_count(self.timers[m], instant as int), entry),
                    ),
                    next_handle: self.next_handle + 1,
                    ..claimed
                },
                Ok(self.next_handle as u64),
            )
        }
    }

    /// Entry `k` leaves the wait-list of clock `m`.
    pub open spec fn remove_timer(self, m: int, k: int) -> Self {
        State { timers: self.timers.update(m, self.timers[m].remove(k)), ..self }
    }

    /// Cancelling the spawn that waits on clock `m` under `handle`: its
    /// entry leaves the wait-list, its slot is freed and its inputs come
    /// back. When no such spawn waits, nothing changes.
    pub open spec fn cancel(self, app: &App, m: int, handle: u64) -> (Self, Result<T, CancelError>) {
        if !(0 <= m < app.monotonics@.len()) {
            (self, Err(CancelError::UnknownClock))
        } else {
            let k = find_handle(self.timers[m], handle as int);
            if k < 0 {
                (self, Err(CancelError::NotPending))
            } else {
                let e = self.timers[m][k];
                (self.remove_timer(m, k).release(e.task as int, e.index as int), Ok(e.input))
            }
        }
    }

    /// The earliest entry of the wait-list of clock `m` fires: it leaves the
    /// wait-list and its instance joins the ready queue of its task.
    pub open spec fn fire_one(self, app: &App, m: int) -> Self {
        let e = self.timers[m][0];
        self.remove_timer(m, 0).commit(app, e.task as int, e.index as int, e.input)
    }

    /// Every entry of the wait-list of clock `m` whose deadline is at or
    /// before `now` fires, earliest first.
    pub open spec fn fire(self, app: &App, m: int, now: u64) -> Self
        decreases self.timers[m].len(),
    {
        if 0 <= m < self.timers.len() && self.timers[m].len() > 0 && self.timers[m][0].deadline
            <= now {
            self.fire_one(app, m).fire(app, m, now)
        } else {
            self
        }
    }

    /// The deadline the clock's compare interrupt is to be armed for, or
    /// `None` when it is to be disabled because nothing waits.
    pub open spec fn next_deadline(self, m: int) -> Option<u64> {
        if 0 <= m < self.timers.len() && self.timers[m].len() > 0 {
            Some(self.timers[m][0].deadline)
        } else {
            None
        }
    }
}

// ---------------------------------------------------------------------
// The stack of contexts
// ---------------------------------------------------------------------
/// Whether the context that runs on top of the first `depth` frames may
/// access resource `r`: the task whose body or critical section is on top,
/// or the idle context when there is no frame. A handler that is between
/// two tasks accesses nothing.
pub open spec fn owner_accesses(app: &App, stack: Seq<Frame>, depth: int, r: int) -> bool
    decreases depth,
{
    if depth <= 0 {
        app.idle_accesses(r)
    } else {
        match stack[depth - 1] {
            Frame::Software { task, .. } => app.software_accesses(task as int, r),
            Frame::Hardware { task, .. } => app.hardware_accesses(task as int, r),
            Frame::Lock { .. } => owner_accesses(app, stack, depth - 1, r),
            _ => false,
        }
    }
}

/// The priority at which the system runs below frame `k`.
pub open spec fn level_below(stack: Seq<Frame>, k: int) -> int {
    if k <= 0 {
        0
    } else {
        stack[k - 1].level()
    }
}

/// Whether one of the first `depth` frames is a critical section on
/// resource `r`.
pub open spec fn holds_lock(stack: Seq<Frame>, depth: int, r: int) -> bool {
    exists|i: int| 0 <= i < depth && #[trigger] stack[i].locks(r)
}

/// The priority at which a critical section on resource `r` runs when it
/// is entered at priority `below`.
pub open spec fn raised_level(app: &App, below: int, r: int) -> int {
    if below >= app.ceiling(r) {
        below
    } else {
        app.ceiling(r)
    }
}

/// Frame `k` was entitled to start on top of the frames below it: a
/// handler interrupts only what runs at a strictly lower priority; a task
/// is called by the handler of its own priority level, which is the frame
/// right below it; and a critical section is entered by a context that may
/// access the resource, on a resource that is not held, at the higher of
/// the current priority and the resource's ceiling.
pub open spec fn frame_valid(app: &App, stack: Seq<Frame>, k: int) -> bool {
    match stack[k] {
        Frame::Dispatcher { level } => level > level_below(stack, k),
        Frame::Trampoline { task, level, .. } => {
            &&& (task as int) < app.hardware_tasks@.len()
            &&& app.hardware_priority_of(task as int) == level
            &&& level > level_below(stack, k)
        },
        Frame::Software { task, level } => {
            &&& (task as int) < app.software_tasks@.len()
            &&& app.priority_of(task as int) == level
            &&& k >= 1
            &&& stack[k - 1] == Frame::Dispatcher { level }
        },
        Frame::Hardware { task, level } => {
            &&& (task as int) < app.hardware_tasks@.len()
            &&& app.hardware_priority_of(task as int) == level
            &&& k >= 1
            &&& stack[k - 1] == Frame::Trampoline { task, level, ran: false }
        },
        Frame::Lock { resource, level } => {
            &&& (resource as int) < app.shared_resources@.len()
            &&& owner_accesses(app, stack, k, resource as int)
            &&& level == raised_level(app, level_below(stack, k), resource as int)
            &&& !holds_lock(stack, k, resource as int)
        },
    }
}

/// Every frame of the stack was entitled to start.
pub open spec fn stack_wf(app: &App, stack: Seq<Frame>) -> bool {
    forall|k: int| 0 <= k < stack.len() ==> #[trigger] frame_valid(app, stack, k)
}

/// Two waiting spawns hold different slots and different handles.
pub open spec fn timers_apart<T>(a: Timer<T>, b: Timer<T>) -> bool {
    &&& a.handle != b.handle
    &&& a.task != b.task || a.index != b.index
}

} // verus!
