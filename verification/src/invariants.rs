//! Proofs that every transition of the model keeps the state well formed.

use crate::app::App;
use crate::app::lemma_ceiling_is_highest_accessor;
use crate::model::{
    count_claimed, count_free, count_ready, count_task, count_waiting, due_count, find_handle,
    frame_valid, total_waiting,
    holds_lock, level_below, level_capacity, level_ready, owner_accesses, raised_level, stack_wf,
    timers_apart, Frame, ReadyEntry, Slot, State, Timer, LEVELS,
};
use vstd::prelude::*;

verus! {

/// 1 for true, 0 for false.
pub open spec fn bit(b: bool) -> int {
    if b {
        1
    } else {
        0
    }
}

/// Every slot is free, claimed or ready, and only one of these.
pub proof fn lemma_count_total<T>(slots: Seq<Slot<T>>)
    ensures
        count_free(slots) + count_claimed(slots) + count_ready(slots) == slots.len(),
    decreases slots.len(),
{
    if slots.len() > 0 {
        lemma_count_total(slots.drop_last());
    }
}

/// Changing one slot moves one unit from the count of its old kind to the
/// count of its new kind.
pub proof fn lemma_count_update<T>(slots: Seq<Slot<T>>, i: int, v: Slot<T>)
    requires
        0 <= i < slots.len(),
    ensures
        count_free(slots.update(i, v)) == count_free(slots) - bit(slots[i] is Free) + bit(
            v is Free,
        ),
        count_claimed(slots.update(i, v)) == count_claimed(slots) - bit(slots[i] is Claimed) + bit(
            v is Claimed,
        ),
        count_ready(slots.update(i, v)) == count_ready(slots) - bit(slots[i] is Ready) + bit(
            v is Ready,
        ),
    decreases slots.len(),
{
    let changed = slots.update(i, v);
    if i == slots.len() - 1 {
        assert(changed.drop_last() =~= slots.drop_last());
    } else {
        assert(changed.drop_last() =~= slots.drop_last().update(i, v));
        lemma_count_update(slots.drop_last(), i, v);
    }
}

/// Appending an entry adds one to the count of its task.
pub proof fn lemma_count_task_push(queue: Seq<ReadyEntry>, e: ReadyEntry, t: int)
    ensures
        count_task(queue.push(e), t) == count_task(queue, t) + bit(e.task == t),
{
    assert(queue.push(e).drop_last() =~= queue);
}

/// Removing the oldest entry takes one from the count of its task.
pub proof fn lemma_count_task_skip(queue: Seq<ReadyEntry>, t: int)
    requires
        queue.len() > 0,
    ensures
        count_task(queue.skip(1), t) == count_task(queue, t) - bit(queue[0].task == t),
    decreases queue.len(),
{
    if queue.len() == 1 {
        assert(queue.skip(1) =~= Seq::<ReadyEntry>::empty());
        assert(queue.drop_last() =~= Seq::<ReadyEntry>::empty());
    } else {
        assert(queue.skip(1).drop_last() =~= queue.drop_last().skip(1));
        assert(queue.skip(1).last() == queue.last());
        lemma_count_task_skip(queue.drop_last(), t);
    }
}

/// The number of ready instances of a level changes only by what changes in
/// the one slot buffer that differs.
pub proof fn lemma_level_ready_frame<T>(
    app: &App,
    a: Seq<Seq<Slot<T>>>,
    b: Seq<Seq<Slot<T>>>,
    level: int,
    n: int,
    t0: int,
)
    requires
        a.len() == b.len(),
        0 <= n <= a.len(),
        forall|t: int| 0 <= t < n && t != t0 ==> a[t] == b[t],
    ensures
        level_ready(app, b, level, n) == level_ready(app, a, level, n) + if 0 <= t0 < n
            && app.priority_of(t0) == level {
            count_ready(b[t0]) - count_ready(a[t0])
        } else {
            0
        },
    decreases n,
{
    if n > 0 {
        lemma_level_ready_frame(app, a, b, level, n - 1, t0);
    }
}

/// A level never has more ready instances than the capacities of its tasks
/// allow, and it has room for as many more as task `t0` has slots that are
/// not ready.
pub proof fn lemma_level_ready_bound<T>(
    app: &App,
    slots: Seq<Seq<Slot<T>>>,
    level: int,
    n: int,
    t0: int,
)
    requires
        0 <= n <= slots.len(),
        forall|t: int| 0 <= t < n ==> (#[trigger] slots[t]).len() == app.capacity_of(t),
    ensures
        level_ready(app, slots, level, n) <= level_capacity(app, level, n),
        0 <= t0 < n && app.priority_of(t0) == level ==> level_ready(app, slots, level, n) + (
        app.capacity_of(t0) - count_ready(slots[t0])) <= level_capacity(app, level, n),
    decreases n,
{
    if n > 0 {
        lemma_level_ready_bound(app, slots, level, n - 1, t0);
        lemma_count_total(slots[n - 1]);
    }
    assert(level_capacity(app, level, n) == app.level_capacity(level, n));
}

/// Taking the oldest free slot of a task keeps the state well formed. The
/// slot is then claimed and no wait-list holds it.
pub proof fn lemma_claim_wf<T>(app: &App, s: State<T>, t: int)
    requires
        s.wf_queues(app),
        s.wf_timers(app),
        0 <= t < app.software_tasks@.len(),
        s.free[t].len() > 0,
    ensures
        s.claim(t).wf_queues(app),
        s.claim(t).wf_timers(app),
        (s.free[t][0] as int) < app.capacity_of(t),
        s.claim(t).slots[t][s.free[t][0] as int] is Claimed,
        !s.claim(t).timer_holds(t, s.free[t][0] as int),
{
    let n = app.software_tasks@.len() as int;
    let index = s.free[t][0] as int;
    let s2 = s.claim(t);
    assert(s.wf_task(app, t));
    assert(s.slots[t][index] is Free);
    lemma_count_update(s.slots[t], index, Slot::<T>::Claimed);
    assert forall|u: int| 0 <= u < n implies #[trigger] s2.wf_task(app, u) by {
        assert(s.wf_task(app, u));
        if u == t {
            assert forall|k: int| 0 <= k < s2.free[t].len() implies (#[trigger] s2.free[t][k]
                as int) < app.capacity_of(t) && s2.slots[t][s2.free[t][k] as int] is Free by {
                assert(s2.free[t][k] == s.free[t][k + 1]);
                assert(s.free[t][k + 1] != s.free[t][0]);
            }
        }
    }
    assert forall|level: int| 0 <= level < LEVELS implies #[trigger] s2.wf_level(app, level) by {
        assert(s.wf_level(app, level));
        lemma_level_ready_frame(app, s.slots, s2.slots, level, n, t);
        assert forall|k: int| 0 <= k < s2.ready[level].len() implies s2.entry_valid(
            app,
            level,
            #[trigger] s2.ready[level][k],
        ) by {
            assert(s.entry_valid(app, level, s.ready[level][k]));
        }
    }
    assert forall|m: int, k: int|
        0 <= m < s2.timers.len() && 0 <= k < s2.timers[m].len() implies s2.timer_valid(
        app,
        #[trigger] s2.timers[m][k],
    ) by {
        assert(s.timer_valid(app, s.timers[m][k]));
    }
    assert(!s2.timer_holds(t, index)) by {
        if s2.timer_holds(t, index) {
            let (m, k) = choose|m: int, k: int|
                0 <= m < s2.timers.len() && 0 <= k < s2.timers[m].len() && (
                #[trigger] s2.timers[m][k]).task == t && s2.timers[m][k].index == index;
            assert(s.timer_valid(app, s.timers[m][k]));
        }
    }
}

/// Filling a claimed slot that no wait-list holds and queueing it keeps the
/// state well formed, and the ready queue has room for it.
pub proof fn lemma_commit_wf<T>(app: &App, s: State<T>, t: int, index: int, input: T)
    requires
        s.wf_queues(app),
        s.wf_timers(app),
        0 <= t < app.software_tasks@.len(),
        0 <= index < app.capacity_of(t),
        s.slots[t][index] is Claimed,
        !s.timer_holds(t, index),
    ensures
        s.commit(app, t, index, input).wf_queues(app),
        s.commit(app, t, index, input).wf_timers(app),
        s.ready[app.priority_of(t)].len() < level_capacity(
            app,
            app.priority_of(t),
            app.software_tasks@.len() as int,
        ),
{
    let n = app.software_tasks@.len() as int;
    let home = app.priority_of(t);
    assert(app.software_tasks@.len() == app.software_tasks.len());
    let e = ReadyEntry { task: t as usize, index: index as u8 };
    let s2 = s.commit(app, t, index, input);
    assert(e.task as int == t && e.index as int == index);
    assert(s.wf_task(app, t));
    assert(s.wf_level(app, home));
    lemma_count_update(s.slots[t], index, Slot::Ready(input));
    lemma_count_total(s.slots[t]);
    assert forall|u: int| 0 <= u < n implies (#[trigger] s.slots[u]).len() == app.capacity_of(
        u,
    ) by {
        assert(s.wf_task(app, u));
    }
    lemma_level_ready_bound(app, s.slots, home, n, t);
    assert forall|u: int| 0 <= u < n implies #[trigger] s2.wf_task(app, u) by {
        assert(s.wf_task(app, u));
        if app.priority_of(u) == home {
            lemma_count_task_push(s.ready[home], e, u);
        }
        if u == t {
            assert forall|k: int| 0 <= k < s2.free[t].len() implies (#[trigger] s2.free[t][k]
                as int) < app.capacity_of(t) && s2.slots[t][s2.free[t][k] as int] is Free by {
                assert(s.slots[t][s.free[t][k] as int] is Free);
            }
        }
    }
    assert forall|level: int| 0 <= level < LEVELS implies #[trigger] s2.wf_level(app, level) by {
        assert(s.wf_level(app, level));
        lemma_level_ready_frame(app, s.slots, s2.slots, level, n, t);
        assert forall|k: int| 0 <= k < s2.ready[level].len() implies s2.entry_valid(
            app,
            level,
            #[trigger] s2.ready[level][k],
        ) by {
            if k < s.ready[level].len() {
                assert(s.entry_valid(app, level, s.ready[level][k]));
            }
        }
        if level == home {
            assert forall|i: int, j: int|
                0 <= i < s2.ready[level].len() && 0 <= j < s2.ready[level].len() && i
                    != j implies s2.ready[level][i] != s2.ready[level][j] by {
                if i < s.ready[level].len() {
                    assert(s.entry_valid(app, level, s.ready[level][i]));
                }
                if j < s.ready[level].len() {
                    assert(s.entry_valid(app, level, s.ready[level][j]));
                }
            }
        }
    }
    assert forall|m: int, k: int|
        0 <= m < s2.timers.len() && 0 <= k < s2.timers[m].len() implies s2.timer_valid(
        app,
        #[trigger] s2.timers[m][k],
    ) by {
        assert(s.timer_valid(app, s.timers[m][k]));
    }
}

/// Dispatching the oldest entry of a ready queue keeps the state well
/// formed, and the free queue of its task has room for the slot.
pub proof fn lemma_take_wf<T>(app: &App, s: State<T>, level: int)
    requires
        s.wf_queues(app),
        s.wf_timers(app),
        0 <= level < LEVELS,
        s.ready[level].len() > 0,
    ensures
        s.take(level).wf_queues(app),
        s.take(level).wf_timers(app),
        s.entry_valid(app, level, s.ready[level][0]),
        s.free[s.ready[level][0].task as int].len() < app.capacity_of(
            s.ready[level][0].task as int,
        ),
{
    let n = app.software_tasks@.len() as int;
    let e = s.ready[level][0];
    let t = e.task as int;
    let index = e.index as int;
    let s2 = s.take(level);
    assert(s.wf_level(app, level));
    assert(s.entry_valid(app, level, e));
    assert(s.wf_task(app, t));
    lemma_count_update(s.slots[t], index, Slot::<T>::Free);
    lemma_count_total(s.slots[t]);
    assert forall|u: int| 0 <= u < n implies #[trigger] s2.wf_task(app, u) by {
        assert(s.wf_task(app, u));
        if app.priority_of(u) == level {
            lemma_count_task_skip(s.ready[level], u);
        }
        if u == t {
            assert forall|i: int, j: int|
                0 <= i < s2.free[t].len() && 0 <= j < s2.free[t].len() && i
                    != j implies s2.free[t][i] != s2.free[t][j] by {
                if i < s.free[t].len() {
                    assert(s.slots[t][s.free[t][i] as int] is Free);
                }
                if j < s.free[t].len() {
                    assert(s.slots[t][s.free[t][j] as int] is Free);
                }
            }
            assert forall|k: int| 0 <= k < s2.free[t].len() implies (#[trigger] s2.free[t][k]
                as int) < app.capacity_of(t) && s2.slots[t][s2.free[t][k] as int] is Free by {
                if k < s.free[t].len() {
                    assert(s.slots[t][s.free[t][k] as int] is Free);
                }
            }
        }
    }
    assert forall|l: int| 0 <= l < LEVELS implies #[trigger] s2.wf_level(app, l) by {
        assert(s.wf_level(app, l));
        lemma_level_ready_frame(app, s.slots, s2.slots, l, n, t);
        assert forall|k: int| 0 <= k < s2.ready[l].len() implies s2.entry_valid(
            app,
            l,
            #[trigger] s2.ready[l][k],
        ) by {
            if l == level {
                assert(s.entry_valid(app, l, s.ready[l][k + 1]));
                assert(s.ready[l][k + 1] != s.ready[l][0]);
            } else {
                assert(s.entry_valid(app, l, s.ready[l][k]));
            }
        }
    }
    assert forall|m: int, k: int|
        0 <= m < s2.timers.len() && 0 <= k < s2.timers[m].len() implies s2.timer_valid(
        app,
        #[trigger] s2.timers[m][k],
    ) by {
        assert(s.timer_valid(app, s.timers[m][k]));
    }
}

/// Giving back a claimed slot that no wait-list holds keeps the state well
/// formed, and the free queue has room for it.
pub proof fn lemma_release_wf<T>(app: &App, s: State<T>, t: int, index: int)
    requires
        s.wf_queues(app),
        s.wf_timers(app),
        0 <= t < app.software_tasks@.len(),
        0 <= index < app.capacity_of(t),
        s.slots[t][index] is Claimed,
        !s.timer_holds(t, index),
    ensures
        s.release(t, index).wf_queues(app),
        s.release(t, index).wf_timers(app),
        s.free[t].len() < app.capacity_of(t),
{
    let n = app.software_tasks@.len() as int;
    let s2 = s.release(t, index);
    assert(s.wf_task(app, t));
    lemma_count_update(s.slots[t], index, Slot::<T>::Free);
    lemma_count_total(s.slots[t]);
    assert forall|u: int| 0 <= u < n implies #[trigger] s2.wf_task(app, u) by {
        assert(s.wf_task(app, u));
        if u == t {
            assert forall|i: int, j: int|
                0 <= i < s2.free[t].len() && 0 <= j < s2.free[t].len() && i
                    != j implies s2.free[t][i] != s2.free[t][j] by {
                if i < s.free[t].len() {
                    assert(s.slots[t][s.free[t][i] as int] is Free);
                }
                if j < s.free[t].len() {
                    assert(s.slots[t][s.free[t][j] as int] is Free);
                }
            }
            assert forall|k: int| 0 <= k < s2.free[t].len() implies (#[trigger] s2.free[t][k]
                as int) < app.capacity_of(t) && s2.slots[t][s2.free[t][k] as int] is Free by {
                if k < s.free[t].len() {
                    assert(s.slots[t][s.free[t][k] as int] is Free);
                }
            }
        }
    }
    assert forall|l: int| 0 <= l < LEVELS implies #[trigger] s2.wf_level(app, l) by {
        assert(s.wf_level(app, l));
        lemma_level_ready_frame(app, s.slots, s2.slots, l, n, t);
        assert forall|k: int| 0 <= k < s2.ready[l].len() implies s2.entry_valid(
            app,
            l,
            #[trigger] s2.ready[l][k],
        ) by {
            assert(s.entry_valid(app, l, s.ready[l][k]));
        }
    }
    assert forall|m: int, k: int|
        0 <= m < s2.timers.len() && 0 <= k < s2.timers[m].len() implies s2.timer_valid(
        app,
        #[trigger] s2.timers[m][k],
    ) by {
        assert(s.timer_valid(app, s.timers[m][k]));
        assert(s.timers[m][k].task == t && s.timers[m][k].index == index ==> s.timer_holds(
            t,
            index,
        ));
    }
}

/// Who owns the top of a stack depends on the frames below that point only.
pub proof fn lemma_owner_prefix(app: &App, a: Seq<Frame>, b: Seq<Frame>, depth: int, r: int)
    requires
        depth <= a.len(),
        depth <= b.len(),
        forall|i: int| 0 <= i < depth ==> a[i] == b[i],
    ensures
        owner_accesses(app, a, depth, r) == owner_accesses(app, b, depth, r),
    decreases depth,
{
    if depth > 0 {
        lemma_owner_prefix(app, a, b, depth - 1, r);
    }
}

/// Whether a frame was entitled to start depends on the frames up to it
/// only.
pub proof fn lemma_frame_prefix(app: &App, a: Seq<Frame>, b: Seq<Frame>, k: int)
    requires
        0 <= k < a.len(),
        k < b.len(),
        forall|i: int| 0 <= i <= k ==> a[i] == b[i],
    ensures
        frame_valid(app, a, k) == frame_valid(app, b, k),
{
    assert(level_below(a, k) == level_below(b, k));
    if let Frame::Lock { resource, level } = a[k] {
        let r = resource as int;
        lemma_owner_prefix(app, a, b, k, r);
        if holds_lock(a, k, r) {
            let i = choose|i: int| 0 <= i < k && #[trigger] a[i].locks(r);
            assert(b[i].locks(r));
        }
        if holds_lock(b, k, r) {
            let i = choose|i: int| 0 <= i < k && #[trigger] b[i].locks(r);
            assert(a[i].locks(r));
        }
    }
}

/// A frame that is entitled to start may be put on a well-formed stack.
pub proof fn lemma_push_frame(app: &App, stack: Seq<Frame>, f: Frame)
    requires
        stack_wf(app, stack),
        frame_valid(app, stack.push(f), stack.len() as int),
    ensures
        stack_wf(app, stack.push(f)),
{
    let grown = stack.push(f);
    assert forall|k: int| 0 <= k < grown.len() implies #[trigger] frame_valid(app, grown, k) by {
        if k < stack.len() {
            assert(frame_valid(app, stack, k));
            lemma_frame_prefix(app, stack, grown, k);
        }
    }
}

/// What is left when the top frame goes is well formed.
pub proof fn lemma_pop_frame(app: &App, stack: Seq<Frame>)
    requires
        stack_wf(app, stack),
        stack.len() > 0,
    ensures
        stack_wf(app, stack.drop_last()),
{
    let rest = stack.drop_last();
    assert forall|k: int| 0 <= k < rest.len() implies #[trigger] frame_valid(app, rest, k) by {
        assert(frame_valid(app, stack, k));
        lemma_frame_prefix(app, stack, rest, k);
    }
}

/// Along a well-formed stack the priority never falls.
pub proof fn lemma_levels_rise(app: &App, stack: Seq<Frame>, i: int, j: int)
    requires
        stack_wf(app, stack),
        0 <= i <= j < stack.len(),
    ensures
        0 <= stack[i].level() <= stack[j].level() <= 255,
    decreases j - i,
{
    if i < j {
        lemma_levels_rise(app, stack, i, j - 1);
        assert(frame_valid(app, stack, j));
        assert(level_below(stack, j) == stack[j - 1].level());
    }
}

/// What `first_pending` yields: the first pending hardware task of the
/// level, or -1 when there is none.
pub proof fn lemma_first_pending<T>(app: &App, s: State<T>, level: int, n: int)
    requires
        0 <= n <= app.hardware_tasks@.len(),
    ensures
        -1 <= s.first_pending(app, level, n) < n,
        s.first_pending(app, level, n) >= 0 ==> s.pending[s.first_pending(app, level, n)]
            && app.hardware_priority_of(s.first_pending(app, level, n)) == level,
        forall|h: int|
            0 <= h < n && (s.first_pending(app, level, n) < 0 || h < s.first_pending(
                app,
                level,
                n,
            )) ==> !(#[trigger] s.pending[h] && app.hardware_priority_of(h) == level),
    decreases n,
{
    if n > 0 {
        lemma_first_pending(app, s, level, n - 1);
    }
}

/// What `top_runnable` yields: the highest level in range at which
/// something waits, or 0 when there is none.
pub proof fn lemma_top_runnable<T>(app: &App, s: State<T>, above: int, level: int)
    requires
        0 <= above,
    ensures
        s.top_runnable(app, above, level) == 0 || (above < s.top_runnable(app, above, level)
            <= level && s.runnable(app, s.top_runnable(app, above, level))),
        forall|l: int|
            above < l <= level && l > s.top_runnable(app, above, level) ==> !#[trigger] s.runnable(
                app,
                l,
            ),
    decreases level,
{
    if level > above && level > 0 && !s.runnable(app, level) {
        lemma_top_runnable(app, s, above, level - 1);
    }
}

/// The priority at which a well-formed state runs is a priority.
pub proof fn lemma_current_level<T>(app: &App, s: State<T>)
    requires
        stack_wf(app, s.stack),
    ensures
        0 <= s.current_level() <= 255,
{
    if s.stack.len() > 0 {
        lemma_levels_rise(app, s.stack, s.stack.len() - 1, s.stack.len() - 1);
    }
}

/// Spawning keeps the state well formed.
pub proof fn lemma_spawn_wf<T>(app: &App, s: State<T>, t: int, input: T)
    requires
        s.wf(app),
    ensures
        s.spawn(app, t, input).0.wf(app),
{
    if 0 <= t < app.software_tasks@.len() && s.free[t].len() > 0 {
        lemma_claim_wf(app, s, t);
        lemma_commit_wf(app, s.claim(t), t, s.free[t][0] as int, input);
        let index = s.free[t][0] as int;
        let after = s.spawn(app, t, input).0;
        assert(s.wf_task(app, t));
        lemma_count_update(s.slots[t], index, Slot::<T>::Claimed);
        lemma_count_update(s.claim(t).slots[t], index, Slot::Ready(input));
        assert forall|u: int| 0 <= u < app.software_tasks@.len() implies count_claimed(
            #[trigger] after.slots[u],
        ) == after.in_flight_count(u) by {
            assert(count_claimed(s.slots[u]) == s.in_flight_count(u));
        }
    }
}

/// Dispatching the oldest entry of a ready queue keeps the claimed slots
/// in step with what waits.
pub proof fn lemma_take_claims<T>(app: &App, s: State<T>, level: int)
    requires
        s.wf(app),
        0 <= level < LEVELS,
        s.ready[level].len() > 0,
    ensures
        s.take(level).wf_claims(app),
{
    let e = s.ready[level][0];
    let after = s.take(level);
    lemma_take_wf(app, s, level);
    assert(s.wf_task(app, e.task as int));
    lemma_count_update(s.slots[e.task as int], e.index as int, Slot::<T>::Free);
    assert forall|u: int| 0 <= u < app.software_tasks@.len() implies count_claimed(
        #[trigger] after.slots[u],
    ) == after.in_flight_count(u) by {
        assert(count_claimed(s.slots[u]) == s.in_flight_count(u));
    }
}

/// Taking the next step keeps the state well formed.
pub proof fn lemma_next_wf<T>(app: &App, s: State<T>)
    requires
        s.wf(app),
    ensures
        s.next(app).0.wf(app),
{
    let level = s.next_level(app);
    let nh = app.hardware_tasks@.len() as int;
    let h = s.first_pending(app, level, nh);
    let after = s.next(app).0;
    let depth = s.stack.len() as int;
    lemma_current_level(app, s);
    lemma_top_runnable(app, s, s.current_level(), LEVELS - 1);
    lemma_first_pending(app, s, level, nh);
    assert(app.hardware_tasks@.len() == app.hardware_tasks.len());
    if level != 0 {
        assert(level_below(after.stack, depth) == s.current_level());
        lemma_push_frame(app, s.stack, after.stack[depth]);
        assert(after.stack =~= s.stack.push(after.stack[depth]));
        lemma_same_queues(app, s, after);
    } else if depth > 0 {
        assert(frame_valid(app, s.stack, depth - 1));
        match s.stack.last() {
            Frame::Dispatcher { level } => {
                if s.ready[level as int].len() > 0 {
                    lemma_take_wf(app, s, level as int);
                    lemma_take_claims(app, s, level as int);
                    let taken = s.take(level as int);
                    lemma_push_frame(app, s.stack, after.stack[depth]);
                    assert(after.stack =~= s.stack.push(after.stack[depth]));
                    lemma_queues_frame(app, taken, after);
                    lemma_same_queues(app, taken, after);
                } else {
                    lemma_pop_frame(app, s.stack);
                    lemma_same_queues(app, s, after);
                }
            },
            Frame::Trampoline { task, level, ran } => {
                if !ran {
                    lemma_push_frame(app, s.stack, after.stack[depth]);
                    assert(after.stack =~= s.stack.push(after.stack[depth]));
                } else {
                    lemma_pop_frame(app, s.stack);
                }
                lemma_same_queues(app, s, after);
            },
            _ => {},
        }
    }
}

/// Ending the executing task keeps the state well formed.
pub proof fn lemma_finish_wf<T>(app: &App, s: State<T>)
    requires
        s.wf(app),
    ensures
        s.finish().0.wf(app),
{
    if s.finish().1 is Ok {
        let after = s.finish().0;
        let depth = s.stack.len() as int;
        assert(frame_valid(app, s.stack, depth - 1));
        lemma_pop_frame(app, s.stack);
        if s.stack.last() is Hardware {
            let below = s.stack.drop_last();
            assert(frame_valid(app, s.stack, depth - 2));
            lemma_pop_frame(app, below);
            let rest = below.drop_last();
            let top = after.stack[depth - 2];
            assert(after.stack =~= rest.push(top));
            assert(level_below(after.stack, depth - 2) == level_below(s.stack, depth - 2));
            lemma_push_frame(app, rest, top);
        }
        lemma_same_queues(app, s, after);
    }
}

/// Entering a critical section keeps the state well formed.
pub proof fn lemma_lock_wf<T>(app: &App, s: State<T>, r: int)
    requires
        s.wf(app),
    ensures
        s.lock(app, r).0.wf(app),
        0 <= raised_level(app, s.current_level(), r) <= 255,
{
    lemma_current_level(app, s);
    lemma_ceiling_is_highest_accessor(app, r);
    if s.lock(app, r).1 is Ok {
        assert(app.shared_resources@.len() == app.shared_resources.len());
        let level = raised_level(app, s.current_level(), r);
        let f = Frame::Lock { resource: r as usize, level: level as u8 };
        let grown = s.stack.push(f);
        let depth = s.stack.len() as int;
        lemma_owner_prefix(app, s.stack, grown, depth, r);
        assert(level_below(grown, depth) == s.current_level());
        if holds_lock(grown, depth, r) {
            let i = choose|i: int| 0 <= i < depth && #[trigger] grown[i].locks(r);
            assert(s.stack[i].locks(r));
        }
        lemma_push_frame(app, s.stack, f);
        lemma_same_queues(app, s, s.lock(app, r).0);
    }
}

/// Leaving a critical section keeps the state well formed.
pub proof fn lemma_unlock_wf<T>(app: &App, s: State<T>)
    requires
        s.wf(app),
    ensures
        s.unlock().0.wf(app),
{
    if s.unlock().1 is Ok {
        lemma_pop_frame(app, s.stack);
        lemma_same_queues(app, s, s.unlock().0);
    }
}

/// Queues and wait-lists that are left alone stay consistent.
pub proof fn lemma_same_queues<T>(app: &App, s: State<T>, s2: State<T>)
    requires
        s.wf_queues(app),
        s.wf_timers(app),
        s.wf_claims(app),
        s2.slots == s.slots,
        s2.free == s.free,
        s2.ready == s.ready,
        s2.timers == s.timers,
        s2.next_handle == s.next_handle,
        s2.pending.len() == s.pending.len(),
    ensures
        s2.wf_queues(app),
        s2.wf_timers(app),
        s2.wf_claims(app),
{
    assert forall|u: int| 0 <= u < app.software_tasks@.len() implies #[trigger] s2.wf_task(
        app,
        u,
    ) by {
        assert(s.wf_task(app, u));
    }
    assert forall|u: int| 0 <= u < app.software_tasks@.len() implies count_claimed(
        #[trigger] s2.slots[u],
    ) == s2.in_flight_count(u) by {
        assert(count_claimed(s.slots[u]) == s.in_flight_count(u));
    }
    assert forall|l: int| 0 <= l < LEVELS implies #[trigger] s2.wf_level(app, l) by {
        assert(s.wf_level(app, l));
        assert forall|k: int| 0 <= k < s2.ready[l].len() implies s2.entry_valid(
            app,
            l,
            #[trigger] s2.ready[l][k],
        ) by {
            assert(s.entry_valid(app, l, s.ready[l][k]));
        }
    }
    assert forall|m: int, k: int|
        0 <= m < s2.timers.len() && 0 <= k < s2.timers[m].len() implies s2.timer_valid(
        app,
        #[trigger] s2.timers[m][k],
    ) by {
        assert(s.timer_valid(app, s.timers[m][k]));
    }
}

/// What `due_count` yields: the leading entries up to it are due, the entry
/// at it is not.
pub proof fn lemma_due_count<T>(list: Seq<Timer<T>>, instant: int)
    ensures
        0 <= due_count(list, instant) <= list.len(),
        forall|k: int|
            0 <= k < due_count(list, instant) ==> (#[trigger] list[k]).deadline <= instant,
        due_count(list, instant) < list.len() ==> list[due_count(list, instant)].deadline
            > instant,
    decreases list.len(),
{
    if !(list.len() == 0 || list[0].deadline > instant) {
        let rest = list.skip(1);
        lemma_due_count(rest, instant);
        assert forall|k: int| 0 <= k < due_count(list, instant) implies (
        #[trigger] list[k]).deadline <= instant by {
            if k > 0 {
                assert(rest[k - 1] == list[k]);
            }
        }
    }
}

/// What `find_handle` yields: the first entry with the handle, or -1 when
/// no entry has it.
pub proof fn lemma_find_handle<T>(list: Seq<Timer<T>>, handle: int)
    ensures
        -1 <= find_handle(list, handle) < list.len(),
        find_handle(list, handle) >= 0 ==> list[find_handle(list, handle)].handle == handle,
        find_handle(list, handle) < 0 ==> forall|k: int|
            0 <= k < list.len() ==> (#[trigger] list[k]).handle != handle,
    decreases list.len(),
{
    if list.len() > 0 && list[0].handle != handle {
        let rest = list.skip(1);
        lemma_find_handle(rest, handle);
        if find_handle(rest, handle) < 0 {
            assert forall|k: int| 0 <= k < list.len() implies (#[trigger] list[k]).handle
                != handle by {
                if k > 0 {
                    assert(rest[k - 1] == list[k]);
                }
            }
        }
    }
}

/// Slot buffers and queues that are left alone stay consistent.
pub proof fn lemma_queues_frame<T>(app: &App, s: State<T>, s2: State<T>)
    requires
        s.wf_queues(app),
        s2.slots == s.slots,
        s2.free == s.free,
        s2.ready == s.ready,
        s2.pending.len() == s.pending.len(),
        s2.timers.len() == s.timers.len(),
    ensures
        s2.wf_queues(app),
{
    assert forall|u: int| 0 <= u < app.software_tasks@.len() implies #[trigger] s2.wf_task(
        app,
        u,
    ) by {
        assert(s.wf_task(app, u));
    }
    assert forall|l: int| 0 <= l < LEVELS implies #[trigger] s2.wf_level(app, l) by {
        assert(s.wf_level(app, l));
        assert forall|k: int| 0 <= k < s2.ready[l].len() implies s2.entry_valid(
            app,
            l,
            #[trigger] s2.ready[l][k],
        ) by {
            assert(s.entry_valid(app, l, s.ready[l][k]));
        }
    }
}

/// Taking an entry off a wait-list keeps the state well formed. The slot
/// of the entry is claimed, and no wait-list holds it any more.
pub proof fn lemma_remove_timer_wf<T>(app: &App, s: State<T>, m: int, k: int)
    requires
        s.wf_queues(app),
        s.wf_timers(app),
        0 <= m < s.timers.len(),
        0 <= k < s.timers[m].len(),
    ensures
        s.remove_timer(m, k).wf_queues(app),
        s.remove_timer(m, k).wf_timers(app),
        (s.timers[m][k].task as int) < app.software_tasks@.len(),
        (s.timers[m][k].index as int) < app.capacity_of(s.timers[m][k].task as int),
        s.remove_timer(m, k).slots[s.timers[m][k].task as int][s.timers[m][k].index as int] is Claimed,
        !s.remove_timer(m, k).timer_holds(
            s.timers[m][k].task as int,
            s.timers[m][k].index as int,
        ),
{
    let s2 = s.remove_timer(m, k);
    let e = s.timers[m][k];
    lemma_queues_frame(app, s, s2);
    assert(s.timer_valid(app, e));
    // where entry `j` of list `c` of the new state sat in the old state
    let back = |c: int, j: int|
        if c == m && j >= k {
            j + 1
        } else {
            j
        };
    assert forall|c: int, j: int|
        0 <= c < s2.timers.len() && 0 <= j < s2.timers[c].len() implies #[trigger] s2.timers[c][j]
        == s.timers[c][back(c, j)] && 0 <= back(c, j) < s.timers[c].len() && (c != m || back(c, j)
        != k) by {}
    assert forall|c: int, i: int, j: int|
        0 <= c < s2.timers.len() && 0 <= i < j < s2.timers[c].len() implies (
    #[trigger] s2.timers[c][i]).deadline <= (#[trigger] s2.timers[c][j]).deadline by {
        assert(s.timers[c][back(c, i)].deadline <= s.timers[c][back(c, j)].deadline);
    }
    assert forall|c: int, j: int|
        0 <= c < s2.timers.len() && 0 <= j < s2.timers[c].len() implies s2.timer_valid(
        app,
        #[trigger] s2.timers[c][j],
    ) by {
        assert(s.timer_valid(app, s.timers[c][back(c, j)]));
    }
    assert forall|c: int, j: int, c2: int, j2: int|
        0 <= c < s2.timers.len() && 0 <= j < s2.timers[c].len() && 0 <= c2 < s2.timers.len() && 0
            <= j2 < s2.timers[c2].len() && (c != c2 || j != j2) implies timers_apart(
        #[trigger] s2.timers[c][j],
        #[trigger] s2.timers[c2][j2],
    ) by {
        assert(timers_apart(s.timers[c][back(c, j)], s.timers[c2][back(c2, j2)]));
    }
    if s2.timer_holds(e.task as int, e.index as int) {
        let (c, j) = choose|c: int, j: int|
            0 <= c < s2.timers.len() && 0 <= j < s2.timers[c].len() && (
            #[trigger] s2.timers[c][j]).task == e.task && s2.timers[c][j].index == e.index;
        assert(timers_apart(s.timers[c][back(c, j)], s.timers[m][k]));
    }
}

/// Scheduling a spawn keeps the state well formed, as long as handles are
/// left.
pub proof fn lemma_spawn_at_wf<T>(app: &App, s: State<T>, m: int, t: int, instant: u64, input: T)
    requires
        s.wf(app),
        s.next_handle < u64::MAX,
    ensures
        s.spawn_at(app, m, t, instant, input).0.wf(app),
{
    if s.spawn_at(app, m, t, instant, input).1 is Ok {
        let s1 = s.claim(t);
        let s2 = s.spawn_at(app, m, t, instant, input).0;
        let pos = due_count(s.timers[m], instant as int);
        let e = s2.timers[m][pos];
        lemma_claim_wf(app, s, t);
        lemma_queues_frame(app, s1, s2);
        lemma_due_count(s.timers[m], instant as int);
        assert(app.software_tasks@.len() == app.software_tasks.len());
        assert(e.task == t && e.index == s.free[t][0] && e.handle == s.next_handle && e.deadline
            == instant);
        // where entry `j` of list `c` of the new state sat in the old state
        let back = |c: int, j: int|
            if c == m && j > pos {
                j - 1
            } else {
                j
            };
        assert forall|c: int, j: int|
            0 <= c < s2.timers.len() && 0 <= j < s2.timers[c].len() && !(c == m && j
                == pos) implies #[trigger] s2.timers[c][j] == s.timers[c][back(c, j)] && 0 <= back(
            c,
            j,
        ) < s.timers[c].len() by {}
        assert forall|c: int, i: int, j: int|
            0 <= c < s2.timers.len() && 0 <= i < j < s2.timers[c].len() implies (
        #[trigger] s2.timers[c][i]).deadline <= (#[trigger] s2.timers[c][j]).deadline by {
            if c == m && i == pos {
                assert(s.timers[m][pos].deadline <= s.timers[m][back(c, j)].deadline);
            } else if c == m && j == pos {
            } else {
                assert(s.timers[c][back(c, i)].deadline <= s.timers[c][back(c, j)].deadline);
            }
        }
        assert forall|c: int, j: int|
            0 <= c < s2.timers.len() && 0 <= j < s2.timers[c].len() implies s2.timer_valid(
            app,
            #[trigger] s2.timers[c][j],
        ) by {
            if !(c == m && j == pos) {
                assert(s1.timer_valid(app, s1.timers[c][back(c, j)]));
            }
        }
        assert forall|c: int, j: int, c2: int, j2: int|
            0 <= c < s2.timers.len() && 0 <= j < s2.timers[c].len() && 0 <= c2 < s2.timers.len()
                && 0 <= j2 < s2.timers[c2].len() && (c != c2 || j != j2) implies timers_apart(
            #[trigger] s2.timers[c][j],
            #[trigger] s2.timers[c2][j2],
        ) by {
            if c == m && j == pos {
                assert(s1.timer_valid(app, s1.timers[c2][back(c2, j2)]));
            } else if c2 == m && j2 == pos {
                assert(s1.timer_valid(app, s1.timers[c][back(c, j)]));
            } else {
                assert(timers_apart(s.timers[c][back(c, j)], s.timers[c2][back(c2, j2)]));
            }
        }
        assert(s.wf_task(app, t));
        lemma_count_update(s.slots[t], s.free[t][0] as int, Slot::<T>::Claimed);
        lemma_count_waiting_insert(s.timers[m], pos, e, t);
        assert forall|u: int| 0 <= u < app.software_tasks@.len() implies count_claimed(
            #[trigger] s2.slots[u],
        ) == s2.in_flight_count(u) by {
            assert(count_claimed(s.slots[u]) == s.in_flight_count(u));
            lemma_count_waiting_insert(s.timers[m], pos, e, u);
            lemma_total_waiting_frame(s.timers, s2.timers, u, s.timers.len() as int, m);
        }
    }
}

/// Cancelling a scheduled spawn keeps the state well formed.
pub proof fn lemma_cancel_wf<T>(app: &App, s: State<T>, m: int, handle: u64)
    requires
        s.wf(app),
    ensures
        s.cancel(app, m, handle).0.wf(app),
{
    if s.cancel(app, m, handle).1 is Ok {
        let k = find_handle(s.timers[m], handle as int);
        lemma_find_handle(s.timers[m], handle as int);
        lemma_remove_timer_wf(app, s, m, k);
        lemma_release_wf(
            app,
            s.remove_timer(m, k),
            s.timers[m][k].task as int,
            s.timers[m][k].index as int,
        );
        let e = s.timers[m][k];
        let after = s.cancel(app, m, handle).0;
        assert(s.wf_task(app, e.task as int));
        lemma_count_update(s.slots[e.task as int], e.index as int, Slot::<T>::Free);
        assert forall|u: int| 0 <= u < app.software_tasks@.len() implies count_claimed(
            #[trigger] after.slots[u],
        ) == after.in_flight_count(u) by {
            assert(count_claimed(s.slots[u]) == s.in_flight_count(u));
            lemma_count_waiting_remove(s.timers[m], k, u);
            lemma_total_waiting_frame(s.timers, after.timers, u, s.timers.len() as int, m);
        }
    }
}

/// The earliest entry of a wait-list firing keeps the state well formed.
pub proof fn lemma_fire_one_wf<T>(app: &App, s: State<T>, m: int)
    requires
        s.wf(app),
        0 <= m < s.timers.len(),
        s.timers[m].len() > 0,
    ensures
        s.fire_one(app, m).wf(app),
        s.fire_one(app, m).timers.len() == s.timers.len(),
        s.fire_one(app, m).timers[m].len() == s.timers[m].len() - 1,
{
    lemma_remove_timer_wf(app, s, m, 0);
    lemma_commit_wf(
        app,
        s.remove_timer(m, 0),
        s.timers[m][0].task as int,
        s.timers[m][0].index as int,
        s.timers[m][0].input,
    );
    let e = s.timers[m][0];
    let after = s.fire_one(app, m);
    assert(s.wf_task(app, e.task as int));
    lemma_count_update(s.slots[e.task as int], e.index as int, Slot::Ready(e.input));
    assert forall|u: int| 0 <= u < app.software_tasks@.len() implies count_claimed(
        #[trigger] after.slots[u],
    ) == after.in_flight_count(u) by {
        assert(count_claimed(s.slots[u]) == s.in_flight_count(u));
        lemma_count_waiting_remove(s.timers[m], 0, u);
        lemma_total_waiting_frame(s.timers, after.timers, u, s.timers.len() as int, m);
    }
}

/// All due entries of a wait-list firing keeps the state well formed.
pub proof fn lemma_fire_wf<T>(app: &App, s: State<T>, m: int, now: u64)
    requires
        s.wf(app),
    ensures
        s.fire(app, m, now).wf(app),
    decreases s.timers[m].len(),
{
    if 0 <= m < s.timers.len() && s.timers[m].len() > 0 && s.timers[m][0].deadline <= now {
        lemma_fire_one_wf(app, s, m);
        lemma_fire_wf(app, s.fire_one(app, m), m, now);
    }
}

/// Once a pending hardware task of a level has been found, looking further
/// does not change the answer.
pub proof fn lemma_first_pending_stays<T>(app: &App, s: State<T>, level: int, n: int, m: int)
    requires
        0 <= n <= m,
        s.first_pending(app, level, n) >= 0,
    ensures
        s.first_pending(app, level, m) == s.first_pending(app, level, n),
    decreases m - n,
{
    if n < m {
        lemma_first_pending_stays(app, s, level, n, m - 1);
    }
}

/// A slot buffer of free slots has no claimed and no ready slot.
pub proof fn lemma_all_free<T>(c: nat)
    ensures
        count_free(Seq::new(c, |i: int| Slot::<T>::Free)) == c,
        count_claimed(Seq::new(c, |i: int| Slot::<T>::Free)) == 0,
        count_ready(Seq::new(c, |i: int| Slot::<T>::Free)) == 0,
    decreases c,
{
    if c > 0 {
        lemma_all_free::<T>((c - 1) as nat);
        assert(Seq::new(c, |i: int| Slot::<T>::Free).drop_last() =~= Seq::new(
            (c - 1) as nat,
            |i: int| Slot::<T>::Free,
        ));
    }
}

/// With nothing spawned, no level has a ready instance.
pub proof fn lemma_initial_level_ready<T>(app: &App, level: int, n: int)
    requires
        0 <= n <= app.software_tasks@.len(),
    ensures
        level_ready(app, State::<T>::initial(app).slots, level, n) == 0,
    decreases n,
{
    if n > 0 {
        lemma_initial_level_ready::<T>(app, level, n - 1);
        lemma_all_free::<T>(app.capacity_of(n - 1) as nat);
    }
}

/// The state in which a system starts is well formed.
pub proof fn lemma_initial_wf<T>(app: &App)
    ensures
        State::<T>::initial(app).wf(app),
{
    let s = State::<T>::initial(app);
    let n = app.software_tasks@.len() as int;
    assert forall|t: int| 0 <= t < n implies #[trigger] s.wf_task(app, t) by {
        lemma_all_free::<T>(app.capacity_of(t) as nat);
    }
    assert forall|l: int| 0 <= l < LEVELS implies #[trigger] s.wf_level(app, l) by {
        lemma_initial_level_ready::<T>(app, l, n);
    }
    assert forall|t: int| 0 <= t < n implies count_claimed(#[trigger] s.slots[t])
        == s.in_flight_count(t) by {
        lemma_all_free::<T>(app.capacity_of(t) as nat);
        lemma_nothing_waiting(s.timers, t, s.timers.len() as int);
    }
}

/// On empty wait-lists nothing waits.
pub proof fn lemma_nothing_waiting<T>(timers: Seq<Seq<Timer<T>>>, t: int, n: int)
    requires
        0 <= n <= timers.len(),
        forall|m: int| 0 <= m < n ==> (#[trigger] timers[m]).len() == 0,
    ensures
        total_waiting(timers, t, n) == 0,
    decreases n,
{
    if n > 0 {
        lemma_nothing_waiting(timers, t, n - 1);
    }
}

/// Putting an entry into a wait-list adds one to the count of its task.
pub proof fn lemma_count_waiting_insert<T>(list: Seq<Timer<T>>, at: int, e: Timer<T>, t: int)
    requires
        0 <= at <= list.len(),
    ensures
        count_waiting(list.insert(at, e), t) == count_waiting(list, t) + bit(e.task == t),
    decreases list.len(),
{
    let grown = list.insert(at, e);
    if at == list.len() {
        assert(grown.drop_last() =~= list);
    } else {
        assert(grown.drop_last() =~= list.drop_last().insert(at, e));
        assert(grown.last() == list.last());
        lemma_count_waiting_insert(list.drop_last(), at, e, t);
    }
}

/// Taking an entry off a wait-list takes one from the count of its task.
pub proof fn lemma_count_waiting_remove<T>(list: Seq<Timer<T>>, at: int, t: int)
    requires
        0 <= at < list.len(),
    ensures
        count_waiting(list.remove(at), t) == count_waiting(list, t) - bit(list[at].task == t),
    decreases list.len(),
{
    let rest = list.remove(at);
    if at == list.len() - 1 {
        assert(rest =~= list.drop_last());
    } else {
        assert(rest.drop_last() =~= list.drop_last().remove(at));
        assert(rest.last() == list.last());
        lemma_count_waiting_remove(list.drop_last(), at, t);
    }
}

/// What waits in all changes only by what changes in the one wait-list
/// that differs.
pub proof fn lemma_total_waiting_frame<T>(
    a: Seq<Seq<Timer<T>>>,
    b: Seq<Seq<Timer<T>>>,
    t: int,
    n: int,
    m0: int,
)
    requires
        a.len() == b.len(),
        0 <= n <= a.len(),
        forall|m: int| 0 <= m < n && m != m0 ==> a[m] == b[m],
    ensures
        total_waiting(b, t, n) == total_waiting(a, t, n) + if 0 <= m0 < n {
            count_waiting(b[m0], t) - count_waiting(a[m0], t)
        } else {
            0
        },
    decreases n,
{
    if n > 0 {
        lemma_total_waiting_frame(a, b, t, n - 1, m0);
    }
}

} // verus!
