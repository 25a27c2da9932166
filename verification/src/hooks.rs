//! Instrumentation hooks: which trace point belongs to what the scheduler
//! has just done.
//!
//! The scheduler itself logs nothing, so nothing that goes wrong with a log
//! can reach it. Whoever drives it hands the outcome of an operation to the
//! hook of that operation and logs the trace point that comes back.

use crate::analyze::Analysis;
use crate::app::App;
use crate::model::{Invocation, SpawnError, Step};
use crate::tracing::{
    decimal, hw_task_enter_text, interrupt_enter_text, interrupt_number_text, sw_task_enter_text,
    tp_hw_task_enter, tp_interrupt_enter, tp_interrupt_exit, tp_sw_task_enter, tp_task_exit,
    tp_task_spawn, tp_task_spawn_failed, TracePoint,
};
use vstd::prelude::*;

verus! {

/// Position of the first channel of priority `level`, or -1.
pub open spec fn channel_of(analysis: &Analysis, level: int, n: int) -> int
    decreases n,
{
    if n <= 0 {
        -1
    } else if channel_of(analysis, level, n - 1) >= 0 {
        channel_of(analysis, level, n - 1)
    } else if analysis.channels@[n - 1].level == level {
        n - 1
    } else {
        -1
    }
}

/// The channel that serves priority `level`.
pub fn find_channel(analysis: &Analysis, level: u8) -> (found: Option<usize>)
    ensures
        match found {
            Some(k) => k == channel_of(analysis, level as int, analysis.channels@.len() as int)
                && k < analysis.channels@.len() && analysis.channels@[k as int].level == level,
            None => channel_of(analysis, level as int, analysis.channels@.len() as int) < 0,
        },
{
    let n = analysis.channels.len();
    let mut k: usize = 0;
    while k < n
        invariant
            n == analysis.channels@.len(),
            k <= n,
            channel_of(analysis, level as int, k as int) < 0,
        decreases n - k,
    {
        if analysis.channels[k].level == level {
            proof {
                lemma_channel_stays(analysis, level as int, k + 1, n as int);
            }
            return Some(k);
        }
        k += 1;
    }
    None
}

/// Once the channel of a level has been found, looking further does not
/// change the answer.
pub proof fn lemma_channel_stays(analysis: &Analysis, level: int, n: int, m: int)
    requires
        0 <= n <= m,
        channel_of(analysis, level, n) >= 0,
    ensures
        channel_of(analysis, level, m) == channel_of(analysis, level, n),
    decreases m - n,
{
    if n < m {
        lemma_channel_stays(analysis, level, n, m - 1);
    }
}

/// Whether the software task `task` of `app` has a dispatcher in
/// `analysis`, so that trace points can name it.
pub open spec fn dispatched(app: &App, analysis: &Analysis, task: int) -> bool {
    &&& 0 <= task < app.software_tasks@.len()
    &&& 0 <= channel_of(
        analysis,
        app.priority_of(task),
        analysis.channels@.len() as int,
    ) < analysis.interrupts@.len()
}

/// The interrupt that dispatches the software task `task`.
pub open spec fn dispatcher_of(app: &App, analysis: &Analysis, task: int) -> Seq<char> {
    analysis.interrupts@[channel_of(
        analysis,
        app.priority_of(task),
        analysis.channels@.len() as int,
    )]@
}

/// The name of the interrupt that dispatches software task `task`.
fn dispatcher_name<'a>(app: &App, analysis: &'a Analysis, task: usize) -> (name: Option<&'a String>)
    ensures
        name is Some == dispatched(app, analysis, task as int),
        name matches Some(text) ==> text@ == dispatcher_of(app, analysis, task as int),
{
    if task >= app.software_tasks.len() {
        return None;
    }
    match find_channel(analysis, app.software_tasks[task].priority) {
        Some(k) => {
            if k < analysis.interrupts.len() {
                Some(&analysis.interrupts[k])
            } else {
                None
            }
        },
        None => None,
    }
}

/// The interrupt whose handler is entered by `step`, if `step` enters one
/// that belongs to `app`: the interrupt that dispatches the level, or the
/// one the hardware task is bound to.
pub open spec fn entered_interrupt<T>(app: &App, analysis: &Analysis, step: Step<T>) -> Option<
    Seq<char>,
> {
    match step {
        Step::EnterDispatcher { priority } => {
            let k = channel_of(analysis, priority as int, analysis.channels@.len() as int);
            if 0 <= k < analysis.interrupts@.len() {
                Some(analysis.interrupts@[k]@)
            } else {
                None
            }
        },
        Step::EnterTrampoline { task, .. } => {
            if task < app.hardware_tasks@.len() {
                Some(app.hardware_tasks@[task as int].binds@)
            } else {
                None
            }
        },
        _ => None,
    }
}

/// The trace point to log when a handler is entered: right after
/// [`crate::scheduler::Scheduler::next`] has handed out a `step` that
/// enters one. `None` for every other step.
pub fn interrupt_entered<T>(app: &App, analysis: &Analysis, step: &Step<T>) -> (tp: Option<
    TracePoint,
>)
    ensures
        tp is Some == entered_interrupt(app, analysis, *step) is Some,
        tp matches Some(point) ==> {
            &&& point.format@ == interrupt_enter_text(
                match *step {
                    Step::EnterDispatcher { priority } => priority as nat,
                    Step::EnterTrampoline { priority, .. } => priority as nat,
                    _ => 0nat,
                },
                entered_interrupt(app, analysis, *step)->Some_0,
            )
            &&& point.args@.len() == 1
            &&& point.args@[0]@ == interrupt_number_text(
                app.device@,
                entered_interrupt(app, analysis, *step)->Some_0,
            )
        },
{
    match step {
        Step::EnterDispatcher { priority } => {
            match find_channel(analysis, *priority) {
                Some(k) => {
                    if k < analysis.interrupts.len() {
                        Some(
                            tp_interrupt_enter(
                                app.device.as_str(),
                                *priority,
                                analysis.interrupts[k].as_str(),
                            ),
                        )
                    } else {
                        None
                    }
                },
                None => None,
            }
        },
        Step::EnterTrampoline { task, priority } => {
            if *task < app.hardware_tasks.len() {
                Some(
                    tp_interrupt_enter(
                        app.device.as_str(),
                        *priority,
                        app.hardware_tasks[*task].binds.as_str(),
                    ),
                )
            } else {
                None
            }
        },
        _ => None,
    }
}

/// The trace point to log when a handler returns: right after
/// [`crate::scheduler::Scheduler::next`] has handed out an exit.
pub fn interrupt_left() -> (tp: TracePoint)
    ensures
        tp.format@ == "AUXON_INTERRUPT_EXIT"@,
        tp.args@.len() == 0,
{
    tp_interrupt_exit()
}

/// The trace point to log when a task is entered: right after
/// [`crate::scheduler::Scheduler::next`] has handed out the run of
/// `invocation` and before the body of the task runs. `None` for an invocation that does not
/// belong to `app`.
pub fn entered<T>(app: &App, analysis: &Analysis, invocation: &Invocation<T>) -> (tp: Option<
    TracePoint,
>)
    ensures
        match *invocation {
            Invocation::Software { task, priority, .. } => {
                &&& tp is Some == dispatched(app, analysis, task as int)
                &&& tp matches Some(point) ==> {
                    &&& point.format@ == sw_task_enter_text(
                        app.software_tasks@[task as int].name@,
                        priority as nat,
                        dispatcher_of(app, analysis, task as int),
                        app.software_tasks@[task as int].arg_cnt as nat,
                    )
                    &&& point.args@.len() == 1
                    &&& point.args@[0]@ == "index"@
                }
            },
            Invocation::Hardware { task, priority } => {
                &&& tp is Some == (task < app.hardware_tasks@.len())
                &&& tp matches Some(point) ==> {
                    &&& point.format@ == hw_task_enter_text(
                        app.hardware_tasks@[task as int].name@,
                        priority as nat,
                        app.hardware_tasks@[task as int].binds@,
                    )
                    &&& point.args@.len() == 0
                }
            },
        },
{
    match invocation {
        Invocation::Software { task, priority, .. } => {
            match dispatcher_name(app, analysis, *task) {
                Some(dispatcher) => {
                    let described = &app.software_tasks[*task];
                    Some(
                        tp_sw_task_enter(
                            described.name.as_str(),
                            *priority,
                            dispatcher.as_str(),
                            described.arg_cnt,
                        ),
                    )
                },
                None => None,
            }
        },
        Invocation::Hardware { task, priority } => {
            if *task < app.hardware_tasks.len() {
                let described = &app.hardware_tasks[*task];
                Some(
                    tp_hw_task_enter(
                        described.name.as_str(),
                        *priority,
                        described.binds.as_str(),
                    ),
                )
            } else {
                None
            }
        },
    }
}

/// The trace point to log when a task is left: right before
/// [`crate::scheduler::Scheduler::finish`].
pub fn left() -> (tp: TracePoint)
    ensures
        tp.format@ == "AUXON_TASK_EXIT"@,
        tp.args@.len() == 0,
{
    tp_task_exit()
}

/// The text logged for a spawn that succeeded.
pub open spec fn spawn_text(task: Seq<char>, interrupt: Seq<char>, arg_cnt: nat) -> Seq<char> {
    "AUXON_TASK_SPAWN::task="@ + task + ",interrupt={=u32},isr="@ + interrupt + ",arg_cnt="@
        + decimal(arg_cnt) + ",queue_index={=u8}"@
}

/// The text logged for a spawn that failed.
pub open spec fn spawn_failed_text(task: Seq<char>, interrupt: Seq<char>, arg_cnt: nat) -> Seq<
    char,
> {
    "AUXON_TASK_SPAWN_FAILED::task="@ + task + ",interrupt={=u32},isr="@ + interrupt
        + ",arg_cnt="@ + decimal(arg_cnt)
}

/// The trace point to log after
/// [`crate::scheduler::Scheduler::spawn`] of `task` has come back with
/// `outcome`: one for a spawn that succeeded, another for one that failed
/// for want of a free slot. `enum_` names the type of the device crate
/// that lists its interrupts. `None` for a task that does not belong to
/// `app`, of which there is nothing to log.
pub fn spawned(
    app: &App,
    analysis: &Analysis,
    enum_: &str,
    task: usize,
    outcome: Result<u8, SpawnError>,
) -> (tp: Option<TracePoint>)
    ensures
        tp is Some == (dispatched(app, analysis, task as int) && (outcome is Ok || outcome == Err::<
            u8,
            SpawnError,
        >(SpawnError::CapacityExceeded))),
        tp matches Some(point) ==> {
            &&& point.format@ == if outcome is Ok {
                spawn_text(
                    app.software_tasks@[task as int].name@,
                    dispatcher_of(app, analysis, task as int),
                    app.software_tasks@[task as int].arg_cnt as nat,
                )
            } else {
                spawn_failed_text(
                    app.software_tasks@[task as int].name@,
                    dispatcher_of(app, analysis, task as int),
                    app.software_tasks@[task as int].arg_cnt as nat,
                )
            }
            &&& point.args@.len() == if outcome is Ok {
                2int
            } else {
                1int
            }
            &&& point.args@[0]@ == app.device@ + "::"@ + enum_@ + "::"@ + dispatcher_of(
                app,
                analysis,
                task as int,
            ) + " as u32"@
            &&& outcome is Ok ==> point.args@[1]@ == "index"@
        },
{
    match dispatcher_name(app, analysis, task) {
        None => None,
        Some(dispatcher) => {
            let described = &app.software_tasks[task];
            match outcome {
                Ok(_) => Some(
                    tp_task_spawn(
                        app.device.as_str(),
                        enum_,
                        described.name.as_str(),
                        dispatcher.as_str(),
                        described.arg_cnt,
                    ),
                ),
                Err(SpawnError::CapacityExceeded) => Some(
                    tp_task_spawn_failed(
                        app.device.as_str(),
                        enum_,
                        described.name.as_str(),
                        dispatcher.as_str(),
                        described.arg_cnt,
                    ),
                ),
                Err(_) => None,
            }
        },
    }
}

} // verus!
