//! The initialisation routine.
//!
//! Bring-up starts by running the one initialisation routine the
//! application provides, with interrupts disabled. It hands back the first
//! value of every shared and local resource and every monotonic clock. This
//! module lays out what surrounds that call.

use crate::app::App;
use crate::tracing::{tp_trace_start, trace_start_text, TracePoint};
use vstd::prelude::*;
use vstd::string::StringExecFns;

verus! {

/// What is generated around the initialisation routine.
pub struct InitPlan {
    /// Name of the routine.
    pub name: String,
    /// The fields of the structure of shared resources the routine returns:
    /// the shared resources, in the order of declaration.
    pub shared_fields: Vec<String>,
    /// The fields of the structure of local resources the routine returns.
    pub local_fields: Vec<String>,
    pub shared_doc: String,
    pub local_doc: String,
    pub user_init_doc: String,
    /// Whether the routine has local resources of its own, and so a
    /// structure for them.
    pub has_locals: bool,
    /// The trace point that is logged right before the routine is called.
    pub trace_start: TracePoint,
}

impl InitPlan {
    /// This is the plan for the initialisation routine of `app`.
    pub open spec fn matches(&self, app: &App) -> bool {
        &&& self.name@ == app.init@
        &&& self.shared_fields@.len() == app.shared_resources@.len()
        &&& forall|r: int|
            0 <= r < self.shared_fields@.len() ==> (#[trigger] self.shared_fields@[r])@
                == app.shared_resources@[r].name@
        &&& self.local_fields@.len() == app.local_resources@.len()
        &&& forall|r: int|
            0 <= r < self.local_fields@.len() ==> (#[trigger] self.local_fields@[r])@
                == app.local_resources@[r]@
        &&& self.shared_doc@ == " RTIC shared resource struct"@
        &&& self.local_doc@ == " RTIC local resource struct"@
        &&& self.user_init_doc@ == " User provided init function"@
        &&& self.has_locals == (app.init_local_resources@.len() > 0)
        &&& self.trace_start.format@ == trace_start_text(app.init@)
        &&& self.trace_start.args@.len() == 0
    }
}

/// Generates support code for the initialisation routine.
pub fn codegen(app: &App) -> (plan: InitPlan)
    ensures
        plan.matches(app),
{
    let mut shared_fields: Vec<String> = Vec::new();
    let mut r: usize = 0;
    while r < app.shared_resources.len()
        invariant
            r <= app.shared_resources@.len(),
            shared_fields@.len() == r,
            forall|i: int|
                0 <= i < r ==> (#[trigger] shared_fields@[i])@ == app.shared_resources@[i].name@,
        decreases app.shared_resources@.len() - r,
    {
        shared_fields.push(app.shared_resources[r].name.clone());
        r += 1;
    }
    let mut local_fields: Vec<String> = Vec::new();
    let mut r: usize = 0;
    while r < app.local_resources.len()
        invariant
            r <= app.local_resources@.len(),
            local_fields@.len() == r,
            forall|i: int| 0 <= i < r ==> (#[trigger] local_fields@[i])@ == app.local_resources@[i]@,
        decreases app.local_resources@.len() - r,
    {
        local_fields.push(app.local_resources[r].clone());
        r += 1;
    }
    InitPlan {
        name: app.init.clone(),
        shared_fields,
        local_fields,
        shared_doc: String::from_str(" RTIC shared resource struct"),
        local_doc: String::from_str(" RTIC local resource struct"),
        user_init_doc: String::from_str(" User provided init function"),
        has_locals: app.init_local_resources.len() > 0,
        trace_start: tp_trace_start(app.init.as_str()),
    }
}

} // verus!
