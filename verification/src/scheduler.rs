//! The running system: spawning, dispatching, critical sections and
//! scheduled spawns.
//!
//! A [`Scheduler`] stands in for the interrupt controller. Whoever drives it
//! asks [`Scheduler::next`] for the next step after each operation that may
//! have made something runnable, runs the task body it is handed, and
//! reports its end with [`Scheduler::finish`]. Every operation is bounded
//! and none blocks.

use crate::analyze::{capacity_of_level, ceilings, names_resource};
use crate::app::App;
use crate::laws::{law_fire_takes_what_is_due, law_slot_conservation};
use crate::invariants::{
    lemma_cancel_wf, lemma_claim_wf, lemma_commit_wf, lemma_current_level, lemma_due_count,
    lemma_find_handle,
    lemma_finish_wf, lemma_fire_one_wf, lemma_first_pending, lemma_first_pending_stays,
    lemma_initial_wf, lemma_lock_wf, lemma_next_wf, lemma_release_wf, lemma_remove_timer_wf,
    lemma_same_queues, lemma_spawn_at_wf, lemma_spawn_wf, lemma_take_wf, lemma_top_runnable,
    lemma_unlock_wf,
};
use crate::model::{
    count_claimed, count_task, due_count, find_handle, frame_valid, holds_lock, level_capacity,
    owner_accesses, CancelError, ExitError, Frame, Invocation, LockError, ReadyEntry, Slot,
    SpawnError, State, Step, Timer, LEVELS,
};
use crate::queue::BoundedQueue;
use vstd::prelude::*;

verus! {

/// What a task body is called with besides its inputs: the priority it
/// runs at, and the resources it may use.
pub struct Context<'a> {
    /// The priority of the task, which is the priority the system runs at
    /// when the body starts.
    pub priority: u8,
    /// The shared resources the task has declared: those it may lock.
    pub shared_resources: &'a Vec<usize>,
    /// The local resources the task owns.
    pub local_resources: &'a Vec<usize>,
}

/// The scheduler of one application.
pub struct Scheduler<T> {
    app: App,
    ceilings: Vec<u8>,
    slots: Vec<Vec<Slot<T>>>,
    free: Vec<BoundedQueue<u8>>,
    ready: Vec<BoundedQueue<ReadyEntry>>,
    pending: Vec<bool>,
    stack: Vec<Frame>,
    timers: Vec<Vec<Timer<T>>>,
    next_handle: u64,
}

impl<T> View for Scheduler<T> {
    type V = State<T>;

    closed spec fn view(&self) -> State<T> {
        State {
            slots: Seq::new(self.slots@.len(), |t: int| self.slots@[t]@),
            free: Seq::new(self.free@.len(), |t: int| self.free@[t]@),
            ready: Seq::new(self.ready@.len(), |l: int| self.ready@[l]@),
            pending: self.pending@,
            stack: self.stack@,
            timers: Seq::new(self.timers@.len(), |m: int| self.timers@[m]@),
            next_handle: self.next_handle as int,
        }
    }
}

impl<T: Copy> Scheduler<T> {
    /// The application this scheduler serves.
    pub closed spec fn spec_app(&self) -> &App {
        &self.app
    }

    /// The queues have the sizes the application asks for, and the table of
    /// ceilings is that of the application.
    pub closed spec fn wf_storage(&self) -> bool {
        &&& self.free@.len() == self.app.software_tasks@.len()
        &&& self.slots@.len() == self.app.software_tasks@.len()
        &&& self.ready@.len() == LEVELS
        &&& self.timers@.len() == self.app.monotonics@.len()
        &&& forall|t: int|
            0 <= t < self.free@.len() ==> (#[trigger] self.free@[t]).wf()
                && self.free@[t].spec_capacity() == self.app.capacity_of(t)
        &&& forall|l: int|
            0 <= l < self.ready@.len() ==> (#[trigger] self.ready@[l]).wf()
                && self.ready@[l].spec_capacity() == level_capacity(
                &self.app,
                l,
                self.app.software_tasks@.len() as int,
            )
        &&& self.ceilings@.len() == self.app.shared_resources@.len()
        &&& forall|r: int|
            0 <= r < self.ceilings@.len() ==> (#[trigger] self.ceilings@[r]) == self.app.ceiling(r)
    }

    /// The scheduler is in a state that the system can be in.
    pub closed spec fn wf(&self) -> bool {
        &&& self@.wf(&self.app)
        &&& self.wf_storage()
        &&& self.app.valid()
    }

    /// A scheduler is always in a state that the system can be in, and
    /// serves an application that can be built. So whatever is proved of
    /// every well-formed state holds of every scheduler.
    pub proof fn lemma_state_is_well_formed(&self)
        requires
            self.wf(),
        ensures
            self@.wf(self.spec_app()),
            self.spec_app().valid(),
    {
    }

    /// Slot conservation: whatever has happened, the free slots of a task,
    /// its instances that wait in a ready queue and its instances in flight
    /// add up to its capacity.
    pub proof fn lemma_slots_conserved(&self, task: int)
        requires
            self.wf(),
            0 <= task < self.spec_app().software_tasks@.len(),
        ensures
            self@.free_count(task) + self@.ready_count(self.spec_app(), task)
                + self@.in_flight_count(task) == self.spec_app().capacity_of(task),
    {
        law_slot_conservation(&self.app, self@, task);
    }

    /// The application this scheduler serves.
    pub fn app(&self) -> (app: &App)
        ensures
            app == self.spec_app(),
    {
        &self.app
    }

    /// The scheduler of a valid application in its initial state: every
    /// slot free, every queue and wait-list empty, nothing pending, only the
    /// idle context running.
    pub(crate) fn build(app: App) -> (s: Self)
        requires
            app.valid(),
        ensures
            s.wf(),
            *s.spec_app() == app,
            s@ == State::<T>::initial(&app),
    {
        let table = ceilings(&app);
        let n = app.software_tasks.len();
        let mut slots: Vec<Vec<Slot<T>>> = Vec::new();
        let mut free: Vec<BoundedQueue<u8>> = Vec::new();
        let mut t: usize = 0;
        while t < n
            invariant
                n == app.software_tasks@.len(),
                t <= n,
                slots@.len() == t,
                free@.len() == t,
                forall|u: int|
                    0 <= u < t ==> (#[trigger] slots@[u])@ =~= Seq::new(
                        app.capacity_of(u) as nat,
                        |i: int| Slot::<T>::Free,
                    ),
                forall|u: int|
                    0 <= u < t ==> (#[trigger] free@[u]).wf() && free@[u].spec_capacity()
                        == app.capacity_of(u) && free@[u]@ =~= Seq::new(
                        app.capacity_of(u) as nat,
                        |i: int| i as u8,
                    ),
            decreases n - t,
        {
            let capacity = app.software_tasks[t].capacity;
            let mut buffer: Vec<Slot<T>> = Vec::new();
            let mut queue: BoundedQueue<u8> = BoundedQueue::new(capacity as usize);
            let mut i: u8 = 0;
            while i < capacity
                invariant
                    i <= capacity,
                    buffer@ =~= Seq::new(i as nat, |j: int| Slot::<T>::Free),
                    queue.wf(),
                    queue.spec_capacity() == capacity,
                    queue@ =~= Seq::new(i as nat, |j: int| j as u8),
                decreases capacity - i,
            {
                buffer.push(Slot::Free);
                let queued = queue.enqueue(i);
                i += 1;
            }
            slots.push(buffer);
            free.push(queue);
            t += 1;
        }
        let mut ready: Vec<BoundedQueue<ReadyEntry>> = Vec::new();
        let mut level: usize = 0;
        while level < LEVELS
            invariant
                app.valid(),
                level <= LEVELS,
                ready@.len() == level,
                forall|l: int|
                    0 <= l < level ==> (#[trigger] ready@[l]).wf() && ready@[l].spec_capacity()
                        == level_capacity(&app, l, app.software_tasks@.len() as int) && ready@[l]@
                        =~= Seq::<ReadyEntry>::empty(),
            decreases LEVELS - level,
        {
            assert(app.level_capacity(level as int, app.software_tasks@.len() as int) <= 255);
            let room = capacity_of_level(&app, level as u8);
            ready.push(BoundedQueue::new(room.unwrap() as usize));
            level += 1;
        }
        let mut pending: Vec<bool> = Vec::new();
        let mut h: usize = 0;
        while h < app.hardware_tasks.len()
            invariant
                h <= app.hardware_tasks.len(),
                pending@ =~= Seq::new(h as nat, |j: int| false),
            decreases app.hardware_tasks.len() - h,
        {
            pending.push(false);
            h += 1;
        }
        let mut timers: Vec<Vec<Timer<T>>> = Vec::new();
        let mut m: usize = 0;
        while m < app.monotonics.len()
            invariant
                m <= app.monotonics.len(),
                timers@.len() == m,
                forall|c: int| 0 <= c < m ==> (#[trigger] timers@[c])@ =~= Seq::<Timer<T>>::empty(),
            decreases app.monotonics.len() - m,
        {
            timers.push(Vec::new());
            m += 1;
        }
        let s = Scheduler {
            app,
            ceilings: table,
            slots,
            free,
            ready,
            pending,
            stack: Vec::new(),
            timers,
            next_handle: 0,
        };
        proof {
            lemma_initial_wf::<T>(&s.app);
            let init = State::<T>::initial(&s.app);
            assert(s@.slots =~~= init.slots);
            assert(s@.free =~~= init.free);
            assert(s@.ready =~~= init.ready);
            assert(s@.timers =~~= init.timers);
            assert(s@.stack =~= init.stack);
            assert(s@ == init);
        }
        s
    }

    /// The priority at which the system currently runs: that of the
    /// handler, task or critical section on top, or 0 in the idle context.
    pub fn current_priority(&self) -> (p: u8)
        requires
            self.wf(),
        ensures
            p == self@.current_level(),
    {
        let depth = self.stack.len();
        if depth == 0 {
            0
        } else {
            match self.stack[depth - 1] {
                Frame::Dispatcher { level } => level,
                Frame::Trampoline { level, .. } => level,
                Frame::Software { level, .. } => level,
                Frame::Hardware { level, .. } => level,
                Frame::Lock { level, .. } => level,
            }
        }
    }

    /// The context a task body is called with: the priority it runs at and
    /// the resources the task has declared, which are the ones it may lock.
    /// `None` for an invocation of a task that the application does not
    /// have.
    pub fn context<'a>(&'a self, invocation: &Invocation<T>) -> (context: Option<Context<'a>>)
        requires
            self.wf(),
        ensures
            match *invocation {
                Invocation::Software { task, priority, .. } => {
                    &&& context is Some == (task < self.spec_app().software_tasks@.len())
                    &&& context matches Some(c) ==> c.priority == priority
                        && c.shared_resources@
                        == self.spec_app().software_tasks@[task as int].shared_resources@
                        && c.local_resources@
                        == self.spec_app().software_tasks@[task as int].local_resources@
                },
                Invocation::Hardware { task, priority } => {
                    &&& context is Some == (task < self.spec_app().hardware_tasks@.len())
                    &&& context matches Some(c) ==> c.priority == priority
                        && c.shared_resources@
                        == self.spec_app().hardware_tasks@[task as int].shared_resources@
                        && c.local_resources@
                        == self.spec_app().hardware_tasks@[task as int].local_resources@
                },
            },
    {
        match invocation {
            Invocation::Software { task, priority, .. } => {
                if *task < self.app.software_tasks.len() {
                    let described = &self.app.software_tasks[*task];
                    Some(
                        Context {
                            priority: *priority,
                            shared_resources: &described.shared_resources,
                            local_resources: &described.local_resources,
                        },
                    )
                } else {
                    None
                }
            },
            Invocation::Hardware { task, priority } => {
                if *task < self.app.hardware_tasks.len() {
                    let described = &self.app.hardware_tasks[*task];
                    Some(
                        Context {
                            priority: *priority,
                            shared_resources: &described.shared_resources,
                            local_resources: &described.local_resources,
                        },
                    )
                } else {
                    None
                }
            },
        }
    }

    /// Marks the interrupt of hardware task `task` pending. Pending it once
    /// more before it is served changes nothing.
    pub fn pend(&mut self, task: usize) -> (r: Result<(), SpawnError>)
        requires
            old(self).wf(),
        ensures
            final(self).wf(),
            final(self).spec_app() == old(self).spec_app(),
            task < old(self).spec_app().hardware_tasks@.len() ==> r is Ok
                && final(self)@ == old(self)@.pend(task as int),
            task >= old(self).spec_app().hardware_tasks@.len() ==> r == Err::<(), SpawnError>(
                SpawnError::UnknownTask,
            ) && final(self)@ == old(self)@,
    {
        if task >= self.pending.len() {
            return Err(SpawnError::UnknownTask);
        }
        let ghost before = self@;
        self.pending[task] = true;
        proof {
            lemma_same_queues(&self.app, before, self@);
        }
        Ok(())
    }

    /// The first hardware task that is pending at priority `level`.
    fn pending_at(&self, level: u8) -> (found: Option<usize>)
        requires
            self.wf(),
        ensures
            match found {
                Some(h) => h == self@.first_pending(
                    &self.app,
                    level as int,
                    self.app.hardware_tasks@.len() as int,
                ),
                None => self@.first_pending(
                    &self.app,
                    level as int,
                    self.app.hardware_tasks@.len() as int,
                ) < 0,
            },
    {
        let n = self.pending.len();
        let mut h: usize = 0;
        while h < n
            invariant
                self.wf(),
                n == self.app.hardware_tasks@.len(),
                n == self.pending@.len(),
                h <= n,
                self@.first_pending(&self.app, level as int, h as int) < 0,
            decreases n - h,
        {
            if self.pending[h] && self.app.hardware_tasks[h].priority == level {
                proof {
                    assert(self@.first_pending(&self.app, level as int, h + 1) == h);
                    lemma_first_pending_stays(&self.app, self@, level as int, h + 1, n as int);
                }
                return Some(h);
            }
            h += 1;
        }
        None
    }

    /// The highest priority above `above` at which something waits, or 0.
    fn top_level(&self, above: u8) -> (level: u8)
        requires
            self.wf(),
        ensures
            level == self@.top_runnable(&self.app, above as int, LEVELS - 1),
    {
        let mut level: u8 = 255;
        while level > above
            invariant
                self.wf(),
                above <= level,
                self@.top_runnable(&self.app, above as int, LEVELS - 1) == self@.top_runnable(
                    &self.app,
                    above as int,
                    level as int,
                ),
            decreases level,
        {
            if self.ready[level as usize].len() > 0 || self.pending_at(level).is_some() {
                return level;
            }
            level -= 1;
        }
        0
    }

    /// Takes the next step, and says which it was.
    ///
    /// When something waits above the current priority, the interrupt of
    /// the highest such level is taken: the trampoline of the first pending
    /// hardware task of that level, in the order of declaration, or else
    /// the level's dispatcher. The handler then runs at the priority of its
    /// level. Otherwise the handler on top goes on: a dispatcher calls the
    /// task of the oldest entry of its ready queue, whose inputs are moved
    /// out and whose slot is freed at once, and returns when the queue is
    /// empty, so that one run of the handler serves everything queued at
    /// its level; a trampoline calls its task once and then returns. A
    /// handler that returns restores the priority of what it interrupted.
    ///
    /// While a task body or a critical section is on top, and when only the
    /// idle context runs, nothing changes and `None` comes back. Whoever
    /// drives the scheduler asks again after every operation that may have
    /// made something runnable, runs each task body that is handed out, and
    /// reports its end with [`Scheduler::finish`].
    pub fn next(&mut self) -> (r: Option<Step<T>>)
        requires
            old(self).wf(),
        ensures
            final(self).wf(),
            final(self).spec_app() == old(self).spec_app(),
            final(self)@ == old(self)@.next(old(self).spec_app()).0,
            r == old(self)@.next(old(self).spec_app()).1,
    {
        let ghost before = self@;
        let current = self.current_priority();
        let level = self.top_level(current);
        proof {
            lemma_next_wf(&self.app, before);
            lemma_current_level(&self.app, before);
            lemma_top_runnable(&self.app, before, current as int, LEVELS - 1);
        }
        if level != 0 {
            match self.pending_at(level) {
                Some(h) => {
                    proof {
                        lemma_first_pending(
                            &self.app,
                            before,
                            level as int,
                            self.app.hardware_tasks@.len() as int,
                        );
                    }
                    self.pending[h] = false;
                    self.stack.push(Frame::Trampoline { task: h, level, ran: false });
                    assert(self@ == before.next(&self.app).0);
                    Some(Step::EnterTrampoline { task: h, priority: level })
                },
                None => {
                    self.stack.push(Frame::Dispatcher { level });
                    assert(self@ == before.next(&self.app).0);
                    Some(Step::EnterDispatcher { priority: level })
                },
            }
        } else {
            let depth = self.stack.len();
            if depth == 0 {
                return None;
            }
            match self.stack[depth - 1] {
                Frame::Dispatcher { level } => {
                    if self.ready[level as usize].len() > 0 {
                        proof {
                            lemma_take_wf(&self.app, before, level as int);
                        }
                        let entry = self.ready[level as usize].dequeue();
                        let e = entry.unwrap();
                        assert(before.entry_valid(&self.app, level as int, e));
                        assert(before.wf_task(&self.app, e.task as int));
                        let input = match self.slots[e.task][e.index as usize] {
                            Slot::Ready(x) => x,
                            _ => unreached(),
                        };
                        self.slots[e.task][e.index as usize] = Slot::Free;
                        let back = self.free[e.task].enqueue(e.index);
                        assert(back is Ok);
                        self.stack.push(Frame::Software { task: e.task, level });
                        proof {
                            let after = before.next(&self.app).0;
                            assert(self@.slots =~~= after.slots);
                            assert(self@.free =~~= after.free);
                            assert(self@.ready =~~= after.ready);
                            assert(self@.timers =~~= after.timers);
                            assert(self@ == after);
                        }
                        Some(
                            Step::Run(
                                Invocation::Software {
                                    task: e.task,
                                    index: e.index,
                                    input,
                                    priority: level,
                                },
                            ),
                        )
                    } else {
                        self.stack.pop();
                        assert(self@.stack =~= before.stack.drop_last());
                        assert(self@ == before.next(&self.app).0);
                        Some(Step::Exit { priority: level })
                    }
                },
                Frame::Trampoline { task, level, ran } => {
                    if !ran {
                        self.stack.push(Frame::Hardware { task, level });
                        assert(self@ == before.next(&self.app).0);
                        Some(Step::Run(Invocation::Hardware { task, priority: level }))
                    } else {
                        self.stack.pop();
                        assert(self@.stack =~= before.stack.drop_last());
                        assert(self@ == before.next(&self.app).0);
                        Some(Step::Exit { priority: level })
                    }
                },
                _ => None,
            }
        }
    }

    /// Ends the executing task; the handler that called it resumes. Fails,
    /// changing nothing, when no task body is on top: when the executing
    /// task is still in a critical section, and when no task executes.
    pub fn finish(&mut self) -> (r: Result<(), ExitError>)
        requires
            old(self).wf(),
        ensures
            final(self).wf(),
            final(self).spec_app() == old(self).spec_app(),
            final(self)@ == old(self)@.finish().0,
            r == old(self)@.finish().1,
    {
        let ghost before = self@;
        proof {
            lemma_finish_wf(&self.app, before);
        }
        let depth = self.stack.len();
        if depth == 0 {
            return Err(ExitError::NothingRunning);
        }
        assert(frame_valid(&self.app, before.stack, depth - 1));
        match self.stack[depth - 1] {
            Frame::Software { .. } => {
                self.stack.pop();
                assert(self@.stack =~= before.stack.drop_last());
                assert(self@ == before.finish().0);
                Ok(())
            },
            Frame::Hardware { task, level } => {
                self.stack.pop();
                self.stack[depth - 2] = Frame::Trampoline { task, level, ran: true };
                assert(self@.stack =~= before.stack.drop_last().drop_last().push(
                    Frame::Trampoline { task, level, ran: true },
                ));
                assert(self@ == before.finish().0);
                Ok(())
            },
            Frame::Lock { .. } => Err(ExitError::ResourceHeld),
            _ => Err(ExitError::NothingRunning),
        }
    }

    /// Spawns software task `task` with `input`.
    ///
    /// The oldest free slot of the task receives the input and joins the
    /// ready queue of the task's priority level, behind everything that
    /// waits there; its index is returned. With no free slot the spawn fails
    /// and nothing changes.
    pub fn spawn(&mut self, task: usize, input: T) -> (r: Result<u8, SpawnError>)
        requires
            old(self).wf(),
        ensures
            final(self).wf(),
            final(self).spec_app() == old(self).spec_app(),
            final(self)@ == old(self)@.spawn(old(self).spec_app(), task as int, input).0,
            r == old(self)@.spawn(old(self).spec_app(), task as int, input).1,
    {
        if task >= self.free.len() {
            return Err(SpawnError::UnknownTask);
        }
        let ghost before = self@;
        proof {
            lemma_spawn_wf(&self.app, before, task as int, input);
        }
        match self.free[task].dequeue() {
            None => {
                assert(self@.free =~~= before.free);
                assert(self@ == before);
                Err(SpawnError::CapacityExceeded)
            },
            Some(index) => {
                proof {
                    lemma_claim_wf(&self.app, before, task as int);
                    lemma_commit_wf(
                        &self.app,
                        before.claim(task as int),
                        task as int,
                        index as int,
                        input,
                    );
                    assert(before.wf_task(&self.app, task as int));
                }
                self.slots[task][index as usize] = Slot::Ready(input);
                let level = self.app.software_tasks[task].priority;
                let queued = self.ready[level as usize].enqueue(ReadyEntry { task, index });
                assert(queued is Ok);
                let ghost after = before.spawn(&self.app, task as int, input).0;
                assert(self@.slots =~~= after.slots);
                assert(self@.free =~~= after.free);
                assert(self@.ready =~~= after.ready);
                assert(self@.timers =~~= after.timers);
                assert(self@ == after);
                Ok(index)
            },
        }
    }

    /// Whether the executing context has declared resource `resource`.
    fn owner_may_access(&self, resource: usize) -> (b: bool)
        requires
            self.wf(),
        ensures
            b == owner_accesses(
                &self.app,
                self@.stack,
                self@.stack.len() as int,
                resource as int,
            ),
    {
        let mut depth = self.stack.len();
        while depth > 0
            invariant
                self.wf(),
                depth <= self.stack@.len(),
                owner_accesses(&self.app, self@.stack, self@.stack.len() as int, resource as int)
                    == owner_accesses(&self.app, self@.stack, depth as int, resource as int),
            decreases depth,
        {
            assert(frame_valid(&self.app, self@.stack, depth - 1));
            match self.stack[depth - 1] {
                Frame::Software { task, .. } => {
                    return names_resource(&self.app.software_tasks[task].shared_resources, resource);
                },
                Frame::Hardware { task, .. } => {
                    return names_resource(&self.app.hardware_tasks[task].shared_resources, resource);
                },
                Frame::Lock { .. } => {
                    depth -= 1;
                },
                _ => {
                    return false;
                },
            }
        }
        names_resource(&self.app.idle_shared_resources, resource)
    }

    /// Whether some context is in a critical section on `resource`.
    pub fn is_locked(&self, resource: usize) -> (b: bool)
        requires
            self.wf(),
        ensures
            b == holds_lock(self@.stack, self@.stack.len() as int, resource as int),
    {
        let mut k: usize = 0;
        while k < self.stack.len()
            invariant
                k <= self.stack@.len(),
                !holds_lock(self@.stack, k as int, resource as int),
            decreases self.stack@.len() - k,
        {
            if let Frame::Lock { resource: held, .. } = self.stack[k] {
                if held == resource {
                    assert(self@.stack[k as int].locks(resource as int));
                    return true;
                }
            }
            assert(!holds_lock(self@.stack, k + 1, resource as int)) by {
                if holds_lock(self@.stack, k + 1, resource as int) {
                    let i = choose|i: int|
                        0 <= i < k + 1 && #[trigger] self@.stack[i].locks(resource as int);
                    assert(i < k);
                }
            }
            k += 1;
        }
        false
    }

    /// Enters a critical section on shared resource `resource`.
    ///
    /// When the current priority is at or above the resource's ceiling,
    /// priority ordering alone keeps every other accessor out and the
    /// priority stays as it is; otherwise it is raised to the ceiling. The
    /// priority at which the critical section runs is returned. The request
    /// fails, changing nothing, for a resource that does not exist, that the
    /// executing context has not declared, or that is held already.
    pub fn lock(&mut self, resource: usize) -> (r: Result<u8, LockError>)
        requires
            old(self).wf(),
        ensures
            final(self).wf(),
            final(self).spec_app() == old(self).spec_app(),
            final(self)@ == old(self)@.lock(old(self).spec_app(), resource as int).0,
            r == old(self)@.lock(old(self).spec_app(), resource as int).1,
    {
        let ghost before = self@;
        proof {
            lemma_lock_wf(&self.app, before, resource as int);
        }
        if resource >= self.ceilings.len() {
            return Err(LockError::UnknownResource);
        }
        if !self.owner_may_access(resource) {
            return Err(LockError::NotAccessible);
        }
        if self.is_locked(resource) {
            return Err(LockError::AlreadyHeld);
        }
        let current = self.current_priority();
        let ceiling = self.ceilings[resource];
        let level = if current >= ceiling {
            current
        } else {
            ceiling
        };
        self.stack.push(Frame::Lock { resource, level });
        assert(self@ == before.lock(&self.app, resource as int).0);
        Ok(level)
    }

    /// Leaves the innermost critical section of the executing context. The
    /// priority falls back to what it was when the section was entered, and
    /// the resource that was held is returned. Fails, changing nothing,
    /// when the executing context is not in a critical section.
    pub fn unlock(&mut self) -> (r: Result<usize, LockError>)
        requires
            old(self).wf(),
        ensures
            final(self).wf(),
            final(self).spec_app() == old(self).spec_app(),
            final(self)@ == old(self)@.unlock().0,
            r == old(self)@.unlock().1,
    {
        let ghost before = self@;
        proof {
            lemma_unlock_wf(&self.app, before);
        }
        let depth = self.stack.len();
        if depth == 0 {
            return Err(LockError::NothingHeld);
        }
        match self.stack[depth - 1] {
            Frame::Lock { resource, .. } => {
                self.stack.pop();
                assert(self@.stack =~= before.stack.drop_last());
                assert(self@ == before.unlock().0);
                Ok(resource)
            },
            _ => Err(LockError::NothingHeld),
        }
    }

    /// The ceiling of shared resource `resource`, or `None` when there is no
    /// such resource.
    pub fn ceiling(&self, resource: usize) -> (c: Option<u8>)
        requires
            self.wf(),
        ensures
            resource < self.spec_app().shared_resources@.len() ==> c == Some(
                self.spec_app().ceiling(resource as int) as u8,
            ),
            resource >= self.spec_app().shared_resources@.len() ==> c is None,
    {
        if resource < self.ceilings.len() {
            Some(self.ceilings[resource])
        } else {
            None
        }
    }

    /// Number of free slots of software task `task`.
    pub fn free_count(&self, task: usize) -> (n: usize)
        requires
            self.wf(),
            task < self.spec_app().software_tasks@.len(),
        ensures
            n == self@.free_count(task as int),
    {
        self.free[task].len()
    }

    /// Number of instances of software task `task` that wait in the ready
    /// queue of its priority level.
    pub fn ready_count(&self, task: usize) -> (n: usize)
        requires
            self.wf(),
            task < self.spec_app().software_tasks@.len(),
        ensures
            n == self@.ready_count(self.spec_app(), task as int),
    {
        let level = self.app.software_tasks[task].priority as usize;
        let queue = &self.ready[level];
        let mut n: usize = 0;
        let mut k: usize = 0;
        while k < queue.len()
            invariant
                k <= queue@.len(),
                n == count_task(queue@.take(k as int), task as int),
                n <= k,
            decreases queue@.len() - k,
        {
            assert(queue@.take(k + 1).drop_last() =~= queue@.take(k as int));
            if queue.get(k).task == task {
                n += 1;
            }
            k += 1;
        }
        assert(queue@.take(k as int) =~= queue@);
        n
    }

    /// Number of instances of software task `task` that are in flight:
    /// spawned for a deadline and still waiting for it, each holding a slot.
    pub fn in_flight_count(&self, task: usize) -> (n: usize)
        requires
            self.wf(),
            task < self.spec_app().software_tasks@.len(),
        ensures
            n == self@.in_flight_count(task as int),
    {
        let buffer = &self.slots[task];
        let mut n: usize = 0;
        let mut k: usize = 0;
        while k < buffer.len()
            invariant
                k <= buffer@.len(),
                n == count_claimed(buffer@.take(k as int)),
                n <= k,
            decreases buffer@.len() - k,
        {
            assert(buffer@.take(k + 1).drop_last() =~= buffer@.take(k as int));
            if let Slot::Claimed = buffer[k] {
                n += 1;
            }
            k += 1;
        }
        assert(buffer@.take(k as int) =~= buffer@);
        assert(self@.slots[task as int] == buffer@);
        assert(count_claimed(self@.slots[task as int]) == self@.in_flight_count(
            task as int,
        ));
        n
    }

    /// Whether the interrupt of hardware task `task` is pending.
    pub fn is_pending(&self, task: usize) -> (b: bool)
        requires
            self.wf(),
            task < self.spec_app().hardware_tasks@.len(),
        ensures
            b == self@.pending[task as int],
    {
        self.pending[task]
    }

    /// Whether another spawn can be scheduled: handles are left.
    pub fn handles_left(&self) -> (b: bool)
        requires
            self.wf(),
        ensures
            b == (self@.next_handle < u64::MAX),
    {
        self.next_handle < u64::MAX
    }

    /// Schedules a spawn of software task `task` with `input` on clock
    /// `clock` for `instant`.
    ///
    /// A slot of the task is claimed at once, so the spawn cannot fail for
    /// want of room when it fires. The entry joins the clock's wait-list
    /// behind every entry whose deadline is not later: spawns with one
    /// deadline fire in the order in which they were scheduled. The handle
    /// under which the spawn can be cancelled is returned.
    pub fn spawn_at(&mut self, clock: usize, task: usize, instant: u64, input: T) -> (r: Result<
        u64,
        SpawnError,
    >)
        requires
            old(self).wf(),
            old(self)@.next_handle < u64::MAX,
        ensures
            final(self).wf(),
            final(self).spec_app() == old(self).spec_app(),
            final(self)@ == old(self)@.spawn_at(
                old(self).spec_app(),
                clock as int,
                task as int,
                instant,
                input,
            ).0,
            r == old(self)@.spawn_at(
                old(self).spec_app(),
                clock as int,
                task as int,
                instant,
                input,
            ).1,
    {
        if task >= self.free.len() {
            return Err(SpawnError::UnknownTask);
        }
        if clock >= self.timers.len() {
            return Err(SpawnError::UnknownClock);
        }
        let ghost before = self@;
        proof {
            lemma_spawn_at_wf(&self.app, before, clock as int, task as int, instant, input);
        }
        match self.free[task].dequeue() {
            None => {
                assert(self@.free =~~= before.free);
                assert(self@ == before);
                Err(SpawnError::CapacityExceeded)
            },
            Some(index) => {
                proof {
                    lemma_claim_wf(&self.app, before, task as int);
                    assert(before.wf_task(&self.app, task as int));
                }
                self.slots[task][index as usize] = Slot::Claimed;
                let handle = self.next_handle;
                let list = &self.timers[clock];
                let mut position: usize = 0;
                assert(list@.skip(0) =~= list@);
                while position < list.len() && list[position].deadline <= instant
                    invariant
                        position <= list@.len(),
                        due_count(list@, instant as int) == position + due_count(
                            list@.skip(position as int),
                            instant as int,
                        ),
                    decreases list@.len() - position,
                {
                    assert(list@.skip(position as int).skip(1) =~= list@.skip(position + 1));
                    position += 1;
                }
                self.timers[clock].insert(
                    position,
                    Timer { deadline: instant, handle, task, index, input },
                );
                self.next_handle = handle + 1;
                proof {
                    let after = before.spawn_at(
                        &self.app,
                        clock as int,
                        task as int,
                        instant,
                        input,
                    ).0;
                    assert(self@.slots =~~= after.slots);
                    assert(self@.free =~~= after.free);
                    assert(self@.ready =~~= after.ready);
                    assert(self@.timers =~~= after.timers);
                    assert(self@ == after);
                }
                Ok(handle)
            },
        }
    }

    /// Schedules a spawn for `duration` after `now`. The deadline is
    /// `now + duration`, or the last instant of the clock when the sum is
    /// beyond it.
    pub fn spawn_after(&mut self, clock: usize, task: usize, now: u64, duration: u64, input: T) -> (r:
        Result<u64, SpawnError>)
        requires
            old(self).wf(),
            old(self)@.next_handle < u64::MAX,
        ensures
            final(self).wf(),
            final(self).spec_app() == old(self).spec_app(),
            final(self)@ == old(self)@.spawn_at(
                old(self).spec_app(),
                clock as int,
                task as int,
                deadline_after(now, duration),
                input,
            ).0,
            r == old(self)@.spawn_at(
                old(self).spec_app(),
                clock as int,
                task as int,
                deadline_after(now, duration),
                input,
            ).1,
    {
        let instant = if duration > u64::MAX - now {
            u64::MAX
        } else {
            now + duration
        };
        self.spawn_at(clock, task, instant, input)
    }

    /// Cancels the spawn that waits on clock `clock` under `handle`.
    ///
    /// Its entry leaves the wait-list, its slot is freed, and the inputs it
    /// was scheduled with come back. Cancelling a spawn that has fired, or a
    /// handle that does not wait on this clock, changes nothing and is
    /// reported as a failure.
    pub fn cancel(&mut self, clock: usize, handle: u64) -> (r: Result<T, CancelError>)
        requires
            old(self).wf(),
        ensures
            final(self).wf(),
            final(self).spec_app() == old(self).spec_app(),
            final(self)@ == old(self)@.cancel(old(self).spec_app(), clock as int, handle).0,
            r == old(self)@.cancel(old(self).spec_app(), clock as int, handle).1,
    {
        if clock >= self.timers.len() {
            return Err(CancelError::UnknownClock);
        }
        let ghost before = self@;
        proof {
            lemma_cancel_wf(&self.app, before, clock as int, handle);
            lemma_find_handle(before.timers[clock as int], handle as int);
        }
        let list = &self.timers[clock];
        let mut k: usize = 0;
        assert(list@.skip(0) =~= list@);
        while k < list.len() && list[k].handle != handle
            invariant
                k <= list@.len(),
                find_handle(list@, handle as int) == if find_handle(
                    list@.skip(k as int),
                    handle as int,
                ) < 0 {
                    -1
                } else {
                    k + find_handle(list@.skip(k as int), handle as int)
                },
            decreases list@.len() - k,
        {
            assert(list@.skip(k as int).skip(1) =~= list@.skip(k + 1));
            k += 1;
        }
        if k >= list.len() {
            return Err(CancelError::NotPending);
        }
        proof {
            lemma_remove_timer_wf(&self.app, before, clock as int, k as int);
            lemma_release_wf(
                &self.app,
                before.remove_timer(clock as int, k as int),
                before.timers[clock as int][k as int].task as int,
                before.timers[clock as int][k as int].index as int,
            );
            assert(before.wf_task(&self.app, before.timers[clock as int][k as int].task as int));
        }
        let e = self.timers[clock].remove(k);
        self.slots[e.task][e.index as usize] = Slot::Free;
        let back = self.free[e.task].enqueue(e.index);
        assert(back is Ok);
        proof {
            let after = before.cancel(&self.app, clock as int, handle).0;
            assert(self@.slots =~~= after.slots);
            assert(self@.free =~~= after.free);
            assert(self@.ready =~~= after.ready);
            assert(self@.timers =~~= after.timers);
            assert(self@ == after);
        }
        Ok(e.input)
    }

    /// Serves the compare interrupt of clock `clock` at instant `now`.
    ///
    /// Every entry of the wait-list whose deadline is at or before `now`
    /// leaves it, earliest first, and its instance joins the ready queue of
    /// its task. The number of spawns that fired is returned. For a clock
    /// that does not exist nothing happens.
    pub fn fire(&mut self, clock: usize, now: u64) -> (fired: usize)
        requires
            old(self).wf(),
        ensures
            final(self).wf(),
            final(self).spec_app() == old(self).spec_app(),
            final(self)@ == old(self)@.fire(old(self).spec_app(), clock as int, now),
            clock < old(self)@.timers.len() ==> fired == due_count(
                old(self)@.timers[clock as int],
                now as int,
            ),
            clock >= old(self)@.timers.len() ==> fired == 0,
    {
        if clock >= self.timers.len() {
            return 0;
        }
        let ghost before = self@;
        let mut fired: usize = 0;
        let waiting = self.timers[clock].len();
        assert(before.timers[clock as int].len() == waiting);
        while self.timers[clock].len() > 0 && self.timers[clock][0].deadline <= now
            invariant
                self.wf(),
                self.spec_app() == old(self).spec_app(),
                clock < self@.timers.len(),
                self@.timers.len() == before.timers.len(),
                self@.fire(&self.app, clock as int, now) == before.fire(
                    &self.app,
                    clock as int,
                    now,
                ),
                fired == before.timers[clock as int].len() - self@.timers[clock as int].len(),
                before.timers[clock as int].len() <= usize::MAX,
            decreases self@.timers[clock as int].len(),
        {
            let ghost here = self@;
            proof {
                lemma_fire_one_wf(&self.app, here, clock as int);
                lemma_remove_timer_wf(&self.app, here, clock as int, 0);
                lemma_commit_wf(
                    &self.app,
                    here.remove_timer(clock as int, 0),
                    here.timers[clock as int][0].task as int,
                    here.timers[clock as int][0].index as int,
                    here.timers[clock as int][0].input,
                );
                assert(here.wf_task(&self.app, here.timers[clock as int][0].task as int));
            }
            let e = self.timers[clock].remove(0);
            self.slots[e.task][e.index as usize] = Slot::Ready(e.input);
            let level = self.app.software_tasks[e.task].priority;
            let queued = self.ready[level as usize].enqueue(
                ReadyEntry { task: e.task, index: e.index },
            );
            assert(queued is Ok);
            proof {
                let after = here.fire_one(&self.app, clock as int);
                assert(self@.slots =~~= after.slots);
                assert(self@.free =~~= after.free);
                assert(self@.ready =~~= after.ready);
                assert(self@.timers =~~= after.timers);
                assert(self@ == after);
            }
            fired += 1;
        }
        proof {
            law_fire_takes_what_is_due(&self.app, before, clock as int, now);
            lemma_due_count(before.timers[clock as int], now as int);
        }
        fired
    }

    /// The deadline the compare interrupt of clock `clock` is to be armed
    /// for: the earliest deadline that waits. `None` when nothing waits on
    /// the clock, or there is no such clock: the interrupt is then to be
    /// disabled.
    pub fn next_deadline(&self, clock: usize) -> (d: Option<u64>)
        requires
            self.wf(),
        ensures
            d == self@.next_deadline(clock as int),
    {
        if clock < self.timers.len() && self.timers[clock].len() > 0 {
            Some(self.timers[clock][0].deadline)
        } else {
            None
        }
    }
}

/// The instant that lies `duration` after `now`, or the last instant of the
/// clock when that is beyond it.
pub open spec fn deadline_after(now: u64, duration: u64) -> u64 {
    if now + duration > u64::MAX {
        u64::MAX
    } else {
        (now + duration) as u64
    }
}

} // verus!
