//! Hardware tasks.
//!
//! A task bound to an interrupt is run by a trampoline: the handler of the
//! interrupt, which runs at the task's priority, calls the task once and
//! returns. Nothing is queued. At run time the interrupt is pended with
//! [`crate::scheduler::Scheduler::pend`], and what the trampoline does is
//! what [`crate::scheduler::Scheduler::next`] does with a trampoline on
//! top; what each trampoline consists of is laid out here.

use crate::app::App;
use crate::tracing::{
    hw_task_enter_text, interrupt_enter_text, interrupt_number_text, tp_hw_task_enter,
    tp_interrupt_enter, tp_interrupt_exit, tp_task_exit, TracePoint,
};
use vstd::prelude::*;
use vstd::string::StringExecFns;

verus! {

/// The trampoline of one hardware task, and what is generated beside it.
pub struct Trampoline {
    /// The task, by its position among the hardware tasks.
    pub task: usize,
    pub name: String,
    /// The interrupt whose handler the trampoline is.
    pub symbol: String,
    /// The priority the handler runs at.
    pub priority: u8,
    pub trampoline_doc: String,
    pub trace_interrupt_enter: TracePoint,
    pub trace_interrupt_exit: TracePoint,
    pub trace_task_enter: TracePoint,
    pub trace_task_exit: TracePoint,
    /// Whether the task has local resources, and so a structure for them.
    pub has_locals: bool,
    /// Whether the task has shared resources, and so a structure for them.
    pub has_shared: bool,
    pub task_doc: String,
    /// Whether the task's body is written out; it is not for a task defined
    /// elsewhere.
    pub emits_body: bool,
}

/// The documentation of the trampoline of task `name`.
pub open spec fn trampoline_doc(name: Seq<char>) -> Seq<char> {
    " User HW task ISR trampoline for "@ + name
}

/// The documentation of the body of task `name`.
pub open spec fn task_doc(name: Seq<char>) -> Seq<char> {
    " User HW task: "@ + name
}

impl Trampoline {
    /// This is the trampoline of hardware task `h` of `app`.
    pub open spec fn matches(&self, app: &App, h: int) -> bool {
        let task = app.hardware_tasks@[h];
        &&& self.task == h
        &&& self.name@ == task.name@
        &&& self.symbol@ == task.binds@
        &&& self.priority == task.priority
        &&& self.trampoline_doc@ == trampoline_doc(task.name@)
        &&& self.trace_interrupt_enter.format@ == interrupt_enter_text(
            task.priority as nat,
            task.binds@,
        )
        &&& self.trace_interrupt_enter.args@.len() == 1
        &&& self.trace_interrupt_enter.args@[0]@ == interrupt_number_text(app.device@, task.binds@)
        &&& self.trace_interrupt_exit.format@ == "AUXON_INTERRUPT_EXIT"@
        &&& self.trace_interrupt_exit.args@.len() == 0
        &&& self.trace_task_enter.format@ == hw_task_enter_text(
            task.name@,
            task.priority as nat,
            task.binds@,
        )
        &&& self.trace_task_enter.args@.len() == 0
        &&& self.trace_task_exit.format@ == "AUXON_TASK_EXIT"@
        &&& self.trace_task_exit.args@.len() == 0
        &&& self.has_locals == (task.local_resources@.len() > 0)
        &&& self.has_shared == (task.shared_resources@.len() > 0)
        &&& self.task_doc@ == task_doc(task.name@)
        &&& self.emits_body == !task.is_extern
    }
}

/// Generates support code for hardware tasks: one trampoline for each, in
/// the order of declaration.
pub fn codegen(app: &App) -> (items: Vec<Trampoline>)
    ensures
        items@.len() == app.hardware_tasks@.len(),
        forall|h: int| 0 <= h < items@.len() ==> (#[trigger] items@[h]).matches(app, h),
{
    let mut items: Vec<Trampoline> = Vec::new();
    let mut h: usize = 0;
    while h < app.hardware_tasks.len()
        invariant
            h <= app.hardware_tasks@.len(),
            items@.len() == h,
            forall|i: int| 0 <= i < h ==> (#[trigger] items@[i]).matches(app, i),
        decreases app.hardware_tasks@.len() - h,
    {
        let task = &app.hardware_tasks[h];
        let mut trampoline_doc = String::from_str(" User HW task ISR trampoline for ");
        trampoline_doc.append(task.name.as_str());
        let mut task_doc = String::from_str(" User HW task: ");
        task_doc.append(task.name.as_str());
        items.push(
            Trampoline {
                task: h,
                name: task.name.clone(),
                symbol: task.binds.clone(),
                priority: task.priority,
                trampoline_doc,
                trace_interrupt_enter: tp_interrupt_enter(
                    app.device.as_str(),
                    task.priority,
                    task.binds.as_str(),
                ),
                trace_interrupt_exit: tp_interrupt_exit(),
                trace_task_enter: tp_hw_task_enter(
                    task.name.as_str(),
                    task.priority,
                    task.binds.as_str(),
                ),
                trace_task_exit: tp_task_exit(),
                has_locals: task.local_resources.len() > 0,
                has_shared: task.shared_resources.len() > 0,
                task_doc,
                emits_body: !task.is_extern,
            },
        );
        h += 1;
    }
    items
}

} // verus!
