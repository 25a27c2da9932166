//! What holds of every well-formed state of the system, and of every
//! transition from one.

use crate::app::{lemma_ceiling_is_highest_accessor, App};
use crate::invariants::{
    lemma_count_task_push, lemma_count_total, lemma_count_update, lemma_current_level,
    lemma_due_count, lemma_level_ready_bound,
    lemma_find_handle, lemma_fire_one_wf, lemma_fire_wf, lemma_first_pending, lemma_levels_rise,
    lemma_lock_wf, lemma_next_wf, lemma_remove_timer_wf, lemma_spawn_wf, lemma_take_wf,
    lemma_top_runnable,
};
use crate::model::{
    count_claimed, due_count, find_handle, frame_valid, level_below, timers_apart, CancelError,
    Frame, Invocation, LockError, ReadyEntry, Slot, SpawnError, State, Step, LEVELS,
};
use vstd::prelude::*;

verus! {

/// Slot conservation: at every instant each slot of a task is free, waits
/// in a ready queue, or is in flight, so the three counts add up to the
/// task's capacity.
pub proof fn law_slot_conservation<T>(app: &App, s: State<T>, t: int)
    requires
        s.wf(app),
        0 <= t < app.software_tasks@.len(),
    ensures
        s.free_count(t) + s.ready_count(app, t) + s.in_flight_count(t) == app.capacity_of(t),
{
    assert(s.wf_task(app, t));
    lemma_count_total(s.slots[t]);
    assert(count_claimed(s.slots[t]) == s.in_flight_count(t));
}

/// The queues are matched to the slots, so none can overflow: while a task
/// has a slot that is not ready, the ready queue of its level has room for
/// one more entry, and while it has a slot that is not free, its free queue
/// has room for one more index. Handing a slot on therefore never fails.
pub proof fn law_queues_never_overflow<T>(app: &App, s: State<T>, t: int, index: int)
    requires
        s.wf(app),
        0 <= t < app.software_tasks@.len(),
        0 <= index < app.capacity_of(t),
    ensures
        s.ready[app.priority_of(t)].len() <= app.level_capacity(
            app.priority_of(t),
            app.software_tasks@.len() as int,
        ),
        !(s.slots[t][index] is Ready) ==> s.ready[app.priority_of(t)].len() < app.level_capacity(
            app.priority_of(t),
            app.software_tasks@.len() as int,
        ),
        s.free[t].len() <= app.capacity_of(t),
        !(s.slots[t][index] is Free) ==> s.free[t].len() < app.capacity_of(t),
{
    let n = app.software_tasks@.len() as int;
    let level = app.priority_of(t);
    assert(s.wf_task(app, t));
    assert(s.wf_level(app, level));
    assert forall|u: int| 0 <= u < n implies (#[trigger] s.slots[u]).len() == app.capacity_of(
        u,
    ) by {
        assert(s.wf_task(app, u));
    }
    lemma_level_ready_bound(app, s.slots, level, n, t);
    lemma_count_total(s.slots[t]);
    // a slot of a kind is counted in the number of slots of that kind
    lemma_count_update(s.slots[t], index, Slot::<T>::Claimed);
    lemma_count_update(s.slots[t], index, Slot::<T>::Free);
}

/// Saturation: a spawn of a task without a free slot fails and leaves the
/// state as it was.
pub proof fn law_saturated_spawn_fails<T>(app: &App, s: State<T>, t: int, input: T)
    requires
        s.wf(app),
        0 <= t < app.software_tasks@.len(),
        s.free_count(t) == 0,
    ensures
        s.spawn(app, t, input).0 == s,
        s.spawn(app, t, input).1 == Err::<u8, SpawnError>(SpawnError::CapacityExceeded),
{
}

/// A spawn succeeds exactly when the task has a free slot, and then one
/// slot moves from free to ready.
pub proof fn law_spawn_moves_one_slot<T>(app: &App, s: State<T>, t: int, input: T)
    requires
        s.wf(app),
        0 <= t < app.software_tasks@.len(),
        s.free_count(t) > 0,
    ensures
        s.spawn(app, t, input).1 is Ok,
        s.spawn(app, t, input).0.free_count(t) == s.free_count(t) - 1,
        s.spawn(app, t, input).0.ready_count(app, t) == s.ready_count(app, t) + 1,
        s.spawn(app, t, input).0.in_flight_count(t) == s.in_flight_count(t),
{
    let after = s.spawn(app, t, input).0;
    lemma_spawn_wf(app, s, t, input);
    law_slot_conservation(app, s, t);
    law_slot_conservation(app, after, t);
    assert(after.free[t] == s.free[t].skip(1));
    lemma_count_task_push(
        s.ready[app.priority_of(t)],
        ReadyEntry { task: t as usize, index: s.free[t][0] },
        t,
    );
    assert(app.software_tasks@.len() == app.software_tasks.len());
}

/// First in, first out: a spawn puts its inputs behind everything that
/// waits at the priority level of its task, and leaves what waits at every
/// level in the order it had.
pub proof fn law_spawn_joins_at_the_back<T>(app: &App, s: State<T>, t: int, input: T, level: int)
    requires
        s.wf(app),
        0 <= level < LEVELS,
        s.spawn(app, t, input).1 is Ok,
    ensures
        level == app.priority_of(t) ==> s.spawn(app, t, input).0.waiting(level) == s.waiting(
            level,
        ).push((t as usize, input)),
        level != app.priority_of(t) ==> s.spawn(app, t, input).0.waiting(level) == s.waiting(
            level,
        ),
{
    let after = s.spawn(app, t, input).0;
    let index = s.free[t][0] as int;
    assert(s.wf_task(app, t));
    assert(s.wf_level(app, level));
    assert(s.slots[t][index] is Free);
    assert(app.software_tasks@.len() == app.software_tasks.len());
    assert forall|k: int| 0 <= k < s.ready[level].len() implies after.waiting(level)[k]
        == s.waiting(level)[k] by {
        assert(s.entry_valid(app, level, s.ready[level][k]));
        assert(s.wf_task(app, s.ready[level][k].task as int));
    }
    if level == app.priority_of(t) {
        assert(after.waiting(level) =~= s.waiting(level).push((t as usize, input)));
    } else {
        assert(after.waiting(level) =~= s.waiting(level));
    }
}

/// First in, first out: of two spawns at one priority level, the inputs of
/// the earlier one wait ahead of those of the later one.
pub proof fn law_spawns_wait_in_order<T>(app: &App, s: State<T>, t: int, x: T, u: int, y: T)
    requires
        s.wf(app),
        s.spawn(app, t, x).1 is Ok,
        s.spawn(app, t, x).0.spawn(app, u, y).1 is Ok,
        app.priority_of(t) == app.priority_of(u),
    ensures
        s.spawn(app, t, x).0.spawn(app, u, y).0.waiting(app.priority_of(t)) == s.waiting(
            app.priority_of(t),
        ).push((t as usize, x)).push((u as usize, y)),
{
    let level = app.priority_of(t);
    lemma_spawn_wf(app, s, t, x);
    law_spawn_joins_at_the_back(app, s, t, x, level);
    law_spawn_joins_at_the_back(app, s.spawn(app, t, x).0, u, y, level);
}

/// First in, first out: the task that a dispatcher calls is the one that
/// has waited longest at its priority level; what else waits there keeps
/// its order, and other levels are untouched.
pub proof fn law_dispatch_takes_the_oldest<T>(app: &App, s: State<T>, level: int)
    requires
        s.wf(app),
        0 <= level < LEVELS,
        s.next(app).1 matches Some(Step::Run(Invocation::Software { .. })),
    ensures
        s.next(app).1 matches Some(Step::Run(Invocation::Software { task, input, priority, .. }))
            && priority == s.current_level() && (level == priority ==> s.waiting(level).len() > 0
            && (task, input) == s.waiting(level)[0] && s.next(app).0.waiting(level) == s.waiting(
            level,
        ).skip(1)) && (level != priority ==> s.next(app).0.waiting(level) == s.waiting(level)),
{
    let chosen = s.current_level();
    let after = s.next(app).0;
    lemma_current_level(app, s);
    lemma_take_wf(app, s, chosen);
    let e = s.ready[chosen][0];
    assert(s.wf_level(app, chosen));
    assert(s.wf_level(app, level));
    if level == chosen {
        assert forall|k: int| 0 <= k < after.ready[level].len() implies after.waiting(level)[k]
            == s.waiting(level).skip(1)[k] by {
            assert(s.ready[level][k + 1] != s.ready[level][0]);
            assert(s.entry_valid(app, level, s.ready[level][k + 1]));
            assert(s.entry_valid(app, level, e));
            assert(s.wf_task(app, s.ready[level][k + 1].task as int));
            assert(after.ready[level][k] == s.ready[level][k + 1]);
        }
        assert(after.waiting(level) =~= s.waiting(level).skip(1));
    } else {
        assert forall|k: int| 0 <= k < after.ready[level].len() implies after.waiting(level)[k]
            == s.waiting(level)[k] by {
            assert(s.entry_valid(app, level, s.ready[level][k]));
            assert(s.entry_valid(app, chosen, e));
            assert(s.wf_task(app, s.ready[level][k].task as int));
        }
        assert(after.waiting(level) =~= s.waiting(level));
    }
}

/// Priority monotonicity: an interrupt is taken only at a priority
/// strictly above the one that was current, so nothing is ever preempted
/// by a task of equal or lower priority; and nothing that waits at a higher
/// priority is passed over.
pub proof fn law_preemption_is_strict<T>(app: &App, s: State<T>, level: int)
    requires
        s.wf(app),
    ensures
        s.next(app).1 matches Some(Step::EnterDispatcher { priority }) ==> priority
            > s.current_level() && s.next(app).0.current_level() == priority && (priority < level
            < LEVELS ==> !s.runnable(app, level)),
        s.next(app).1 matches Some(Step::EnterTrampoline { priority, .. }) ==> priority
            > s.current_level() && s.next(app).0.current_level() == priority && (priority < level
            < LEVELS ==> !s.runnable(app, level)),
{
    lemma_current_level(app, s);
    lemma_top_runnable(app, s, s.current_level(), LEVELS - 1);
}

/// A task runs at the priority of the handler that calls it, and a handler
/// that returns restores the priority of what it interrupted, which is
/// lower.
pub proof fn law_handlers_frame_their_tasks<T>(app: &App, s: State<T>)
    requires
        s.wf(app),
    ensures
        s.next(app).1 matches Some(Step::Run(Invocation::Software { priority, .. })) ==> priority
            == s.current_level() && s.next(app).0.current_level() == priority,
        s.next(app).1 matches Some(Step::Run(Invocation::Hardware { priority, .. })) ==> priority
            == s.current_level() && s.next(app).0.current_level() == priority,
        s.next(app).1 matches Some(Step::Exit { priority }) ==> priority == s.current_level()
            && s.next(app).0.current_level() < priority,
        s.finish().1 is Ok ==> s.finish().0.current_level() == s.current_level(),
{
    lemma_current_level(app, s);
    lemma_top_runnable(app, s, s.current_level(), LEVELS - 1);
    let depth = s.stack.len() as int;
    if depth > 0 {
        assert(frame_valid(app, s.stack, depth - 1));
        if depth > 1 {
            assert(level_below(s.stack, depth - 1) == s.stack[depth - 2].level());
        }
    }
}

/// A dispatcher drains its level before it returns: as long as nothing
/// above preempts it, it calls the oldest waiting task while there is one,
/// and returns only from an empty ready queue.
pub proof fn law_dispatcher_drains_its_level<T>(app: &App, s: State<T>)
    requires
        s.wf(app),
        s.stack.len() > 0,
        s.stack.last() is Dispatcher,
        forall|level: int| s.current_level() < level < LEVELS ==> !s.runnable(app, level),
    ensures
        s.ready[s.current_level()].len() > 0 ==> s.next(app).1 == Some(
            Step::Run(s.head_invocation(s.current_level())),
        ),
        s.ready[s.current_level()].len() == 0 ==> s.next(app).1 == Some(
            Step::<T>::Exit { priority: s.current_level() as u8 },
        ) && s.next(app).0.stack == s.stack.drop_last(),
{
    lemma_current_level(app, s);
    lemma_top_runnable(app, s, s.current_level(), LEVELS - 1);
}

/// A trampoline calls its task exactly once: entered, it calls the task;
/// once the task has ended, it returns.
pub proof fn law_trampoline_calls_once<T>(app: &App, s: State<T>)
    requires
        s.wf(app),
        s.stack.len() > 0,
        s.stack.last() is Trampoline,
        forall|level: int| s.current_level() < level < LEVELS ==> !s.runnable(app, level),
    ensures
        ({
            let task = s.stack.last()->Trampoline_task;
            let priority = s.stack.last()->Trampoline_level;
            let called = s.next(app);
            let ended = called.0.finish();
            &&& !s.stack.last()->Trampoline_ran ==> {
                &&& called.1 == Some(Step::<T>::Run(Invocation::Hardware { task, priority }))
                &&& ended.1 is Ok
                &&& ended.0.stack == s.stack.drop_last().push(
                    Frame::Trampoline { task, level: priority, ran: true },
                )
            }
            &&& s.stack.last()->Trampoline_ran ==> {
                &&& called.1 == Some(Step::<T>::Exit { priority })
                &&& called.0.stack == s.stack.drop_last()
            }
        }),
{
    lemma_current_level(app, s);
    lemma_top_runnable(app, s, s.current_level(), LEVELS - 1);
    let called = s.next(app).0;
    if !s.stack.last()->Trampoline_ran {
        assert(called.stack.drop_last() =~= s.stack);
    }
}

/// Priority monotonicity: nothing starts while a task body or a critical
/// section runs, or the system idles, at or above every priority at which
/// something waits.
pub proof fn law_lower_priority_waits<T>(app: &App, s: State<T>)
    requires
        s.wf(app),
        forall|level: int| s.current_level() < level < LEVELS ==> !s.runnable(app, level),
        s.stack.len() > 0 ==> !s.stack.last().is_handler(),
    ensures
        s.next(app).1 is None,
        s.next(app).0 == s,
{
    lemma_current_level(app, s);
    lemma_top_runnable(app, s, s.current_level(), LEVELS - 1);
}

/// Priority monotonicity: along the stack the priority never falls; every
/// handler runs strictly above what it interrupted; every task sits right
/// on the handler that called it, at the handler's priority; and so every
/// task runs strictly above every task it preempted.
pub proof fn law_stack_priorities_rise<T>(app: &App, s: State<T>, i: int, j: int)
    requires
        s.wf(app),
        0 <= i < j < s.stack.len(),
    ensures
        s.stack[i].level() <= s.stack[j].level(),
        s.stack[j].is_handler() ==> s.stack[i].level() < s.stack[j].level(),
        s.stack[j].is_task() ==> s.stack[j - 1].is_handler() && s.stack[j - 1].level()
            == s.stack[j].level(),
        s.stack[j].is_task() && !s.stack[i].is_handler() ==> s.stack[i].level()
            < s.stack[j].level(),
{
    lemma_levels_rise(app, s.stack, i, j);
    lemma_levels_rise(app, s.stack, i, j - 1);
    assert(frame_valid(app, s.stack, j));
    assert(level_below(s.stack, j) == s.stack[j - 1].level());
    if s.stack[j].is_task() && !s.stack[i].is_handler() {
        assert(i < j - 1);
        lemma_levels_rise(app, s.stack, i, j - 2);
        assert(frame_valid(app, s.stack, j - 1));
        assert(level_below(s.stack, j - 1) == s.stack[j - 2].level());
    }
}

/// While a critical section is open, the system runs at or above the
/// ceiling of its resource.
pub proof fn law_lock_raises_to_ceiling<T>(app: &App, s: State<T>, i: int, j: int)
    requires
        s.wf(app),
        0 <= i <= j < s.stack.len(),
        s.stack[i] is Lock,
    ensures
        s.stack[j].level() >= app.ceiling(s.stack[i]->Lock_resource as int),
{
    lemma_levels_rise(app, s.stack, i, j);
    assert(frame_valid(app, s.stack, i));
}

/// Ceiling correctness: while a context is in a critical section on a
/// resource, no task that may access the resource runs, and no second
/// critical section on the resource is open.
pub proof fn law_mutual_exclusion<T>(app: &App, s: State<T>, i: int, j: int)
    requires
        s.wf(app),
        0 <= i < j < s.stack.len(),
        s.stack[i] is Lock,
    ensures
        s.stack[j] matches Frame::Software { task, .. } ==> !app.software_accesses(
            task as int,
            s.stack[i]->Lock_resource as int,
        ),
        s.stack[j] matches Frame::Hardware { task, .. } ==> !app.hardware_accesses(
            task as int,
            s.stack[i]->Lock_resource as int,
        ),
        s.stack[j] matches Frame::Lock { resource, .. } ==> resource != s.stack[i]->Lock_resource,
{
    let r = s.stack[i]->Lock_resource as int;
    lemma_ceiling_is_highest_accessor(app, r);
    assert(frame_valid(app, s.stack, j));
    if s.stack[j].is_task() {
        law_stack_priorities_rise(app, s, i, j);
        law_lock_raises_to_ceiling(app, s, i, i);
    }
    if let Frame::Lock { resource, .. } = s.stack[j] {
        if resource == s.stack[i]->Lock_resource {
            assert(s.stack[i].locks(resource as int));
        }
    }
}

/// Ceiling correctness: a task that may access a resource is not called
/// while a critical section on the resource is open.
pub proof fn law_accessor_waits_for_unlock<T>(app: &App, s: State<T>, i: int)
    requires
        s.wf(app),
        0 <= i < s.stack.len(),
        s.stack[i] is Lock,
    ensures
        s.next(app).1 matches Some(Step::Run(Invocation::Software { task, .. }))
            ==> !app.software_accesses(task as int, s.stack[i]->Lock_resource as int),
        s.next(app).1 matches Some(Step::Run(Invocation::Hardware { task, .. }))
            ==> !app.hardware_accesses(task as int, s.stack[i]->Lock_resource as int),
{
    lemma_next_wf(app, s);
    if s.next(app).1 matches Some(Step::Run(_)) {
        let after = s.next(app).0;
        assert(after.stack.len() == s.stack.len() + 1);
        assert(after.stack[i] == s.stack[i]);
        law_mutual_exclusion(app, after, i, s.stack.len() as int);
    }
}

/// Leaving a critical section restores the priority that was current when
/// it was entered.
pub proof fn law_unlock_restores_priority<T>(app: &App, s: State<T>, r: int)
    requires
        s.wf(app),
        s.lock(app, r).1 is Ok,
    ensures
        s.lock(app, r).0.current_level() >= s.current_level(),
        s.lock(app, r).0.current_level() >= app.ceiling(r),
        s.lock(app, r).0.unlock().1 == Ok::<usize, LockError>(r as usize),
        s.lock(app, r).0.unlock().0 == s,
{
    lemma_lock_wf(app, s, r);
    let locked = s.lock(app, r).0;
    assert(locked.stack.drop_last() =~= s.stack);
}

/// Deadline ordering: of two spawns scheduled on one clock, the second for
/// a deadline that is not earlier, the first sits ahead in the wait-list,
/// and so fires first. In particular spawns with colliding deadlines fire
/// in the order in which they were scheduled.
pub proof fn law_deadlines_keep_insertion_order<T>(
    app: &App,
    s: State<T>,
    m: int,
    t: int,
    first: u64,
    x: T,
    u: int,
    second: u64,
    y: T,
)
    requires
        s.wf(app),
        s.next_handle + 1 < u64::MAX,
        first <= second,
        s.spawn_at(app, m, t, first, x).1 is Ok,
        s.spawn_at(app, m, t, first, x).0.spawn_at(app, m, u, second, y).1 is Ok,
    ensures
        ({
            let one = s.spawn_at(app, m, t, first, x);
            let two = one.0.spawn_at(app, m, u, second, y);
            exists|i: int, j: int|
                0 <= i < j < two.0.timers[m].len() && (#[trigger] two.0.timers[m][i]).handle
                    == one.1->Ok_0 && (#[trigger] two.0.timers[m][j]).handle == two.1->Ok_0
                    && two.0.timers[m][i].input == x && two.0.timers[m][j].input == y
        }),
{
    let one = s.spawn_at(app, m, t, first, x);
    let two = one.0.spawn_at(app, m, u, second, y);
    let i = due_count(s.timers[m], first as int);
    let j = due_count(one.0.timers[m], second as int);
    lemma_due_count(s.timers[m], first as int);
    lemma_due_count(one.0.timers[m], second as int);
    assert(one.0.timers[m][i].deadline == first);
    assert forall|k: int| 0 <= k < i implies (#[trigger] one.0.timers[m][k]).deadline
        <= second by {
        assert(one.0.timers[m][k] == s.timers[m][k]);
    }
    assert(i < j);
    assert(two.0.timers[m][i] == one.0.timers[m][i]);
    assert(two.0.timers[m][i].handle == one.1->Ok_0);
    assert(two.0.timers[m][j].handle == two.1->Ok_0);
}

/// Deadline ordering: what fires is the head of the wait-list, which no
/// entry precedes in deadline; it joins the ready queue of its task with
/// the inputs it was scheduled with, and the rest of the wait-list keeps
/// its order.
pub proof fn law_earliest_fires_first<T>(app: &App, s: State<T>, m: int, k: int)
    requires
        s.wf(app),
        0 <= m < s.timers.len(),
        0 <= k < s.timers[m].len(),
    ensures
        s.timers[m][0].deadline <= s.timers[m][k].deadline,
        s.fire_one(app, m).timers[m] == s.timers[m].skip(1),
        s.fire_one(app, m).waiting(app.priority_of(s.timers[m][0].task as int)) == s.waiting(
            app.priority_of(s.timers[m][0].task as int),
        ).push((s.timers[m][0].task, s.timers[m][0].input)),
{
    let e = s.timers[m][0];
    let level = app.priority_of(e.task as int);
    let after = s.fire_one(app, m);
    lemma_remove_timer_wf(app, s, m, 0);
    assert(s.timers[m].remove(0) =~= s.timers[m].skip(1));
    assert(s.timer_valid(app, e));
    assert(s.wf_level(app, level));
    assert(s.wf_task(app, e.task as int));
    assert forall|i: int| 0 <= i < s.ready[level].len() implies after.waiting(level)[i]
        == s.waiting(level)[i] by {
        assert(s.entry_valid(app, level, s.ready[level][i]));
        assert(s.wf_task(app, s.ready[level][i].task as int));
        assert(after.ready[level][i] == s.ready[level][i]);
    }
    assert(after.waiting(level).len() == s.waiting(level).len() + 1);
    assert(after.ready[level][s.ready[level].len() as int] == ReadyEntry {
        task: e.task,
        index: e.index,
    });
    assert(after.waiting(level) =~= s.waiting(level).push((e.task, e.input)));
}

/// Deadline ordering: serving a clock at `now` takes exactly the entries
/// whose deadline is at or before `now` off its wait-list, and leaves every
/// other wait-list alone. What remains, if anything, is due later: its
/// earliest deadline is what the clock is to be armed for next.
pub proof fn law_fire_takes_what_is_due<T>(app: &App, s: State<T>, m: int, now: u64)
    requires
        s.wf(app),
        0 <= m < s.timers.len(),
    ensures
        s.fire(app, m, now).wf(app),
        s.fire(app, m, now).timers.len() == s.timers.len(),
        s.fire(app, m, now).timers[m] == s.timers[m].skip(due_count(s.timers[m], now as int)),
        forall|c: int|
            0 <= c < s.timers.len() && c != m ==> #[trigger] s.fire(app, m, now).timers[c]
                == s.timers[c],
        s.fire(app, m, now).next_deadline(m) matches Some(d) ==> d > now,
        s.fire(app, m, now).stack == s.stack,
    decreases s.timers[m].len(),
{
    lemma_fire_wf(app, s, m, now);
    lemma_due_count(s.timers[m], now as int);
    if s.timers[m].len() > 0 && s.timers[m][0].deadline <= now {
        let one = s.fire_one(app, m);
        lemma_fire_one_wf(app, s, m);
        assert(one.timers[m] =~= s.timers[m].skip(1));
        law_fire_takes_what_is_due(app, one, m, now);
        let k = due_count(one.timers[m], now as int);
        lemma_due_count(one.timers[m], now as int);
        assert(s.timers[m].skip(1).skip(k) =~= s.timers[m].skip(k + 1));
    } else {
        assert(s.timers[m].skip(0) =~= s.timers[m]);
    }
}

/// A spawn that succeeds leaves the dispatcher of its level with work: the
/// level counts as pending until its ready queue has been drained.
pub proof fn law_spawn_pends_dispatcher<T>(app: &App, s: State<T>, t: int, input: T)
    requires
        s.wf(app),
        s.spawn(app, t, input).1 is Ok,
    ensures
        s.spawn(app, t, input).0.runnable(app, app.priority_of(t)),
        app.priority_of(t) > s.current_level() ==> s.spawn(app, t, input).0.next(app).1 is Some,
{
    let after = s.spawn(app, t, input).0;
    lemma_spawn_wf(app, s, t, input);
    lemma_current_level(app, after);
    lemma_top_runnable(app, after, after.current_level(), LEVELS - 1);
    assert(s.wf_task(app, t));
}

/// Cancelling a spawn that waits succeeds, gives its inputs back, frees
/// its slot, and takes it off the wait-list for good: it will not fire.
pub proof fn law_cancel_prevents_spawn<T>(app: &App, s: State<T>, m: int, k: int)
    requires
        s.wf(app),
        0 <= m < s.timers.len(),
        0 <= k < s.timers[m].len(),
    ensures
        ({
            let e = s.timers[m][k];
            let r = s.cancel(app, m, e.handle);
            &&& r.1 == Ok::<T, CancelError>(e.input)
            &&& r.0.timers[m] == s.timers[m].remove(k)
            &&& forall|i: int|
                0 <= i < r.0.timers[m].len() ==> (#[trigger] r.0.timers[m][i]).handle != e.handle
            &&& r.0.free_count(e.task as int) == s.free_count(e.task as int) + 1
            &&& r.0.ready == s.ready
        }),
{
    let e = s.timers[m][k];
    let r = s.cancel(app, m, e.handle);
    let found = find_handle(s.timers[m], e.handle as int);
    lemma_find_handle(s.timers[m], e.handle as int);
    if found != k {
        assert(timers_apart(s.timers[m][found], s.timers[m][k]));
    }
    assert forall|i: int| 0 <= i < r.0.timers[m].len() implies (
    #[trigger] r.0.timers[m][i]).handle != e.handle by {
        let from = if i >= k {
            i + 1
        } else {
            i
        };
        assert(r.0.timers[m][i] == s.timers[m][from]);
        assert(timers_apart(s.timers[m][from], s.timers[m][k]));
    }
    assert(s.timer_valid(app, e));
}

/// Cancelling a spawn that has fired, or was cancelled before, is reported
/// as a failure and changes nothing.
pub proof fn law_cancel_after_fire_fails<T>(app: &App, s: State<T>, m: int, handle: u64)
    requires
        s.wf(app),
        0 <= m < s.timers.len(),
        forall|k: int| 0 <= k < s.timers[m].len() ==> (#[trigger] s.timers[m][k]).handle != handle,
    ensures
        s.cancel(app, m, handle).1 == Err::<T, CancelError>(CancelError::NotPending),
        s.cancel(app, m, handle).0 == s,
{
    lemma_find_handle(s.timers[m], handle as int);
}

/// Once the head of a wait-list has fired, its handle can no longer be
/// cancelled.
pub proof fn law_fired_cannot_be_cancelled<T>(app: &App, s: State<T>, m: int)
    requires
        s.wf(app),
        0 <= m < s.timers.len(),
        s.timers[m].len() > 0,
    ensures
        s.fire_one(app, m).cancel(app, m, s.timers[m][0].handle).1 == Err::<T, CancelError>(
            CancelError::NotPending,
        ),
{
    let after = s.fire_one(app, m);
    let handle = s.timers[m][0].handle;
    assert forall|k: int| 0 <= k < after.timers[m].len() implies (
    #[trigger] after.timers[m][k]).handle != handle by {
        assert(after.timers[m][k] == s.timers[m][k + 1]);
        assert(timers_apart(s.timers[m][k + 1], s.timers[m][0]));
    }
    lemma_fire_one_wf(app, s, m);
    law_cancel_after_fire_fails(app, after, m, handle);
}

} // verus!
