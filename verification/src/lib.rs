//! A static-priority, interrupt-driven task scheduler for small processors,
//! together with the elaboration steps that turn an application description
//! into dispatcher tables, interrupt trampolines and a bring-up sequence.
//!
//! An application is described by an [`app::App`]: its tasks, the priority
//! of each, the resources they share. [`check`] says whether the
//! description can be built and [`analyze`] derives the ceiling of each
//! resource and the make-up of each priority level. [`post_init`] brings
//! the application up, and at the end of bring-up hands over its
//! [`scheduler::Scheduler`], which spawns, dispatches, locks and schedules.
//! What the scheduler does is defined by the transitions of [`model`];
//! [`invariants`] proves that they keep the state well formed, and [`laws`]
//! states what follows for every state and every transition.
//!
//! [`dispatchers`], [`hardware_tasks`] and [`init`] lay out the handlers
//! and the surroundings of the initialisation routine, [`tracing`] and
//! [`hooks`] the trace points, and [`id_gen`] and [`manifest_gen`] the
//! identifiers and the manifest of the instrumentation probes, of which
//! [`manifest_laws`] states what holds from one update to the next.

pub mod analyze;
pub mod app;
pub mod check;
pub mod dispatchers;
pub mod hardware_tasks;
pub mod hooks;
pub mod id_gen;
pub mod init;
pub mod invariants;
pub mod laws;
pub mod manifest_gen;
pub mod manifest_laws;
pub mod model;
pub mod post_init;
pub mod queue;
pub mod scheduler;
pub mod tracing;
