//! Task dispatchers.
//!
//! Each priority level with software tasks has one dispatcher: the handler
//! of an interrupt set aside for it. On entry it runs at the priority of
//! its level and drains the level's ready queue; for each entry it moves
//! the inputs out of the task's slot buffer, gives the slot back to the
//! task's free queue, and runs the task. What a dispatcher does at run time
//! is what [`crate::scheduler::Scheduler::next`] does with a dispatcher on
//! top; what each dispatcher consists of is laid out here.

use crate::analyze::{lemma_tasks_at, Analysis};
use crate::app::App;
use crate::tracing::{
    decimal, interrupt_enter_text, interrupt_number_text, push_decimal, sw_task_enter_text,
    tp_interrupt_enter, tp_interrupt_exit, tp_sw_task_enter, tp_task_exit, TracePoint,
};
use vstd::prelude::*;
use vstd::string::StringExecFns;

verus! {

/// What a dispatcher does for one of its tasks.
pub struct DispatchArm {
    /// The task, by its position among the software tasks.
    pub task: usize,
    pub name: String,
    /// Number of inputs that are moved out of the slot and handed to the
    /// task.
    pub arg_cnt: u8,
    pub trace_enter: TracePoint,
    pub trace_exit: TracePoint,
}

/// The dispatcher of one priority level.
pub struct Dispatcher {
    /// The priority the handler runs at.
    pub level: u8,
    /// The interrupt whose handler this is.
    pub interrupt: String,
    /// The size the level's ready queue is declared with: one more than the
    /// number of instances that can be ready at once.
    pub queue_size: usize,
    pub doc: String,
    /// One arm for each task of the level: the variants of the level's task
    /// tag, in the order of declaration.
    pub arms: Vec<DispatchArm>,
    pub trace_interrupt_enter: TracePoint,
    pub trace_interrupt_exit: TracePoint,
}

/// The documentation of the dispatcher of `level`.
pub open spec fn dispatcher_doc(level: nat) -> Seq<char> {
    "Interrupt handler to dispatch tasks at priority "@ + decimal(level)
}

impl DispatchArm {
    /// This arm serves task `task` of `app` under the dispatcher that runs
    /// at `level` in the handler of `interrupt`.
    pub open spec fn matches(&self, app: &App, task: usize, level: u8, interrupt: Seq<char>) -> bool {
        &&& self.task == task
        &&& self.name@ == app.software_tasks@[task as int].name@
        &&& self.arg_cnt == app.software_tasks@[task as int].arg_cnt
        &&& self.trace_enter.format@ == sw_task_enter_text(
            self.name@,
            level as nat,
            interrupt,
            self.arg_cnt as nat,
        )
        &&& self.trace_enter.args@.len() == 1
        &&& self.trace_enter.args@[0]@ == "index"@
        &&& self.trace_exit.format@ == "AUXON_TASK_EXIT"@
        &&& self.trace_exit.args@.len() == 0
    }
}

impl Dispatcher {
    /// This is the dispatcher of channel `k` of the analysis of `app`.
    pub open spec fn matches(&self, app: &App, analysis: &Analysis, k: int) -> bool {
        let channel = analysis.channels@[k];
        &&& self.level == channel.level
        &&& self.interrupt@ == analysis.interrupts@[k]@
        &&& self.queue_size == channel.capacity + 1
        &&& self.doc@ == dispatcher_doc(self.level as nat)
        &&& self.arms@.len() == channel.tasks@.len()
        &&& forall|j: int|
            0 <= j < self.arms@.len() ==> (#[trigger] self.arms@[j]).matches(
                app,
                channel.tasks@[j],
                self.level,
                self.interrupt@,
            )
        &&& self.trace_interrupt_enter.format@ == interrupt_enter_text(
            self.level as nat,
            self.interrupt@,
        )
        &&& self.trace_interrupt_enter.args@.len() == 1
        &&& self.trace_interrupt_enter.args@[0]@ == interrupt_number_text(
            app.device@,
            self.interrupt@,
        )
        &&& self.trace_interrupt_exit.format@ == "AUXON_INTERRUPT_EXIT"@
        &&& self.trace_interrupt_exit.args@.len() == 0
    }
}

/// Every task that the analysis puts into a channel is a task of `app`.
pub open spec fn channels_in_range(app: &App, analysis: &Analysis) -> bool {
    forall|k: int, j: int|
        0 <= k < analysis.channels@.len() && 0 <= j < analysis.channels@[k].tasks@.len() ==> (
        #[trigger] analysis.channels@[k].tasks@[j]) < app.software_tasks@.len()
}

/// Generates task dispatchers: one for each channel of the analysis, lowest
/// priority level first.
pub fn codegen(app: &App, analysis: &Analysis) -> (items: Vec<Dispatcher>)
    requires
        analysis.interrupts@.len() == analysis.channels@.len(),
        channels_in_range(app, analysis),
    ensures
        items@.len() == analysis.channels@.len(),
        forall|k: int| 0 <= k < items@.len() ==> (#[trigger] items@[k]).matches(app, analysis, k),
{
    let mut items: Vec<Dispatcher> = Vec::new();
    let mut k: usize = 0;
    while k < analysis.channels.len()
        invariant
            analysis.interrupts@.len() == analysis.channels@.len(),
            channels_in_range(app, analysis),
            k <= analysis.channels@.len(),
            items@.len() == k,
            forall|i: int| 0 <= i < k ==> (#[trigger] items@[i]).matches(app, analysis, i),
        decreases analysis.channels@.len() - k,
    {
        let channel = &analysis.channels[k];
        let level = channel.level;
        let interrupt = analysis.interrupts[k].clone();
        let mut arms: Vec<DispatchArm> = Vec::new();
        let mut j: usize = 0;
        while j < channel.tasks.len()
            invariant
                channels_in_range(app, analysis),
                k < analysis.channels@.len(),
                *channel == analysis.channels@[k as int],
                level == channel.level,
                j <= channel.tasks@.len(),
                arms@.len() == j,
                forall|i: int|
                    0 <= i < j ==> (#[trigger] arms@[i]).matches(
                        app,
                        channel.tasks@[i],
                        level,
                        interrupt@,
                    ),
            decreases channel.tasks@.len() - j,
        {
            let tag = channel.tasks[j];
            assert(analysis.channels@[k as int].tasks@[j as int] < app.software_tasks@.len());
            let task = &app.software_tasks[tag];
            arms.push(
                DispatchArm {
                    task: tag,
                    name: task.name.clone(),
                    arg_cnt: task.arg_cnt,
                    trace_enter: tp_sw_task_enter(
                        task.name.as_str(),
                        level,
                        interrupt.as_str(),
                        task.arg_cnt,
                    ),
                    trace_exit: tp_task_exit(),
                },
            );
            j += 1;
        }
        let mut doc = String::from_str("Interrupt handler to dispatch tasks at priority ");
        push_decimal(&mut doc, level);
        let trace_interrupt_enter = tp_interrupt_enter(
            app.device.as_str(),
            level,
            interrupt.as_str(),
        );
        items.push(
            Dispatcher {
                level,
                interrupt,
                queue_size: channel.capacity as usize + 1,
                doc,
                arms,
                trace_interrupt_enter,
                trace_interrupt_exit: tp_interrupt_exit(),
            },
        );
        k += 1;
    }
    items
}

/// The analysis of an application is one that `codegen` accepts: every
/// channel has its interrupt, and every task of a channel is a task of the
/// application.
pub proof fn lemma_analysis_channels_in_range(app: &App, analysis: &Analysis)
    requires
        analysis.wf(app),
    ensures
        analysis.interrupts@.len() == analysis.channels@.len(),
        channels_in_range(app, analysis),
{
    assert forall|k: int, j: int|
        0 <= k < analysis.channels@.len() && 0 <= j < analysis.channels@[k].tasks@.len() implies (
    #[trigger] analysis.channels@[k].tasks@[j]) < app.software_tasks@.len() by {
        assert(analysis.channel_matches(app, k));
        lemma_tasks_at(
            app,
            analysis.channels@[k].level as int,
            app.software_tasks@.len() as int,
        );
    }
}

} // verus!
