//! The static description of an application: its tasks, the resources they
//! share and the interrupts that serve them.
//!
//! Tasks and resources are referred to by their position in the tables of
//! [`App`]. Priorities are small integers; a higher priority preempts a lower
//! one, and priority 0 is the idle context, which every task preempts.

use vstd::prelude::*;

verus! {

/// A task that is spawned by software and run by the dispatcher of its
/// priority level.
pub struct SoftwareTask {
    pub name: String,
    pub priority: u8,
    /// How many instances may be pending at once.
    pub capacity: u8,
    /// Number of arguments an instance is spawned with.
    pub arg_cnt: u8,
    pub shared_resources: Vec<usize>,
    pub local_resources: Vec<usize>,
}

/// A task bound to a hardware interrupt, which runs it directly.
pub struct HardwareTask {
    pub name: String,
    /// The interrupt the task is bound to.
    pub binds: String,
    pub priority: u8,
    pub shared_resources: Vec<usize>,
    pub local_resources: Vec<usize>,
    /// Whether the task's body is defined elsewhere.
    pub is_extern: bool,
}

/// A value that several contexts may access.
pub struct SharedResource {
    pub name: String,
    /// A lock-free resource is accessed without raising the priority, which
    /// is only sound when all its accessors run at one priority.
    pub lock_free: bool,
}

/// An instrumentation probe attached to a task.
pub struct ProbeDecl {
    pub task: String,
    pub name: String,
    pub description: Option<String>,
    pub storage_name: String,
    pub local_name: String,
}

/// The whole application.
pub struct App {
    /// Path of the device crate that names the interrupts.
    pub device: String,
    /// The highest priority the interrupt controller offers: 2 to the power
    /// of its number of priority bits, or 255 if that is more.
    pub levels: u8,
    /// Name of the initialisation routine.
    pub init: String,
    pub init_local_resources: Vec<usize>,
    /// Shared resources used by the idle context, which runs at priority 0.
    pub idle_shared_resources: Vec<usize>,
    pub software_tasks: Vec<SoftwareTask>,
    pub hardware_tasks: Vec<HardwareTask>,
    pub shared_resources: Vec<SharedResource>,
    pub local_resources: Vec<String>,
    pub monotonics: Vec<String>,
    /// Interrupts set aside for dispatching software tasks, the one for the
    /// highest priority level first.
    pub dispatchers: Vec<String>,
    pub probes: Vec<ProbeDecl>,
}

/// Why an application description cannot be built.
#[derive(Clone, Copy, Debug, PartialEq, Eq, Structural)]
pub enum BuildConfigurationError {
    /// A task names a shared resource that is not declared.
    UnknownResource,
    /// A task has priority 0 or a priority the interrupt controller does not
    /// offer, or there are more priority levels with software tasks than
    /// interrupts to dispatch them.
    UnschedulablePriority,
    /// The tasks of one priority level have more than 255 slots together.
    CapacityOverflow,
    /// Two handlers are bound to the same interrupt, or two contexts claim
    /// the same local resource.
    DuplicateBinding,
    /// A lock-free resource is accessed at two different priorities.
    ConflictingCeilings,
}

/// Whether every entry of `list` is below `bound`.
pub open spec fn all_below(list: Seq<usize>, bound: nat) -> bool {
    forall|k: int| 0 <= k < list.len() ==> list[k] < bound
}

impl App {
    /// Priority of software task `t`.
    pub open spec fn priority_of(&self, t: int) -> int {
        self.software_tasks@[t].priority as int
    }

    /// Number of instances of software task `t` that may be pending at once.
    pub open spec fn capacity_of(&self, t: int) -> int {
        self.software_tasks@[t].capacity as int
    }

    /// Priority of hardware task `h`.
    pub open spec fn hardware_priority_of(&self, h: int) -> int {
        self.hardware_tasks@[h].priority as int
    }

    /// The highest priority among the first `n` software tasks that access
    /// resource `r`, or 0 when there is none.
    pub open spec fn software_ceiling(&self, r: int, n: int) -> int
        decreases n,
    {
        if n <= 0 {
            0
        } else {
            let rest = self.software_ceiling(r, n - 1);
            if self.software_accesses(n - 1, r) && self.priority_of(n - 1) > rest {
                self.priority_of(n - 1)
            } else {
                rest
            }
        }
    }

    /// The highest priority among the first `n` hardware tasks that access
    /// resource `r`, or 0 when there is none.
    pub open spec fn hardware_ceiling(&self, r: int, n: int) -> int
        decreases n,
    {
        if n <= 0 {
            0
        } else {
            let rest = self.hardware_ceiling(r, n - 1);
            if self.hardware_accesses(n - 1, r) && self.hardware_priority_of(n - 1) > rest {
                self.hardware_priority_of(n - 1)
            } else {
                rest
            }
        }
    }

    /// The ceiling of shared resource `r`: the highest priority of any
    /// context that may access it. The idle context counts with priority 0.
    pub open spec fn ceiling(&self, r: int) -> int {
        let s = self.software_ceiling(r, self.software_tasks@.len() as int);
        let h = self.hardware_ceiling(r, self.hardware_tasks@.len() as int);
        if s >= h {
            s
        } else {
            h
        }
    }

    /// Whether software task `t` may access shared resource `r`.
    pub open spec fn software_accesses(&self, t: int, r: int) -> bool {
        0 <= t < self.software_tasks@.len() && self.software_tasks@[t].shared_resources@.contains(
            r as usize,
        )
    }

    /// Whether hardware task `h` may access shared resource `r`.
    pub open spec fn hardware_accesses(&self, h: int, r: int) -> bool {
        0 <= h < self.hardware_tasks@.len() && self.hardware_tasks@[h].shared_resources@.contains(
            r as usize,
        )
    }

    /// Whether the idle context may access shared resource `r`.
    pub open spec fn idle_accesses(&self, r: int) -> bool {
        self.idle_shared_resources@.contains(r as usize)
    }

    /// Every resource that a context names is declared.
    pub open spec fn resources_known(&self) -> bool {
        let n = self.shared_resources@.len();
        let m = self.local_resources@.len();
        &&& all_below(self.idle_shared_resources@, n)
        &&& all_below(self.init_local_resources@, m)
        &&& forall|t: int| 0 <= t < self.software_tasks@.len() ==> #[trigger] self.software_known(t)
        &&& forall|h: int| 0 <= h < self.hardware_tasks@.len() ==> #[trigger] self.hardware_known(h)
    }

    /// Every resource that software task `t` names is declared.
    pub open spec fn software_known(&self, t: int) -> bool {
        &&& all_below(self.software_tasks@[t].shared_resources@, self.shared_resources@.len())
        &&& all_below(self.software_tasks@[t].local_resources@, self.local_resources@.len())
    }

    /// Every resource that hardware task `h` names is declared.
    pub open spec fn hardware_known(&self, h: int) -> bool {
        &&& all_below(self.hardware_tasks@[h].shared_resources@, self.shared_resources@.len())
        &&& all_below(self.hardware_tasks@[h].local_resources@, self.local_resources@.len())
    }

    /// How many of the first `n` software tasks use local resource `r`.
    pub open spec fn software_users(&self, r: int, n: int) -> nat
        decreases n,
    {
        if n <= 0 {
            0
        } else {
            self.software_users(r, n - 1) + if self.software_tasks@[n - 1].local_resources@.contains(
                r as usize,
            ) {
                1nat
            } else {
                0nat
            }
        }
    }

    /// How many of the first `n` hardware tasks use local resource `r`.
    pub open spec fn hardware_users(&self, r: int, n: int) -> nat
        decreases n,
    {
        if n <= 0 {
            0
        } else {
            self.hardware_users(r, n - 1) + if self.hardware_tasks@[n - 1].local_resources@.contains(
                r as usize,
            ) {
                1nat
            } else {
                0nat
            }
        }
    }

    /// How many contexts use local resource `r`: the initialisation routine
    /// and every task count.
    pub open spec fn local_users(&self, r: int) -> nat {
        self.software_users(r, self.software_tasks@.len() as int) + self.hardware_users(
            r,
            self.hardware_tasks@.len() as int,
        ) + if self.init_local_resources@.contains(r as usize) {
            1nat
        } else {
            0nat
        }
    }

    /// Every local resource belongs to one context at most.
    pub open spec fn locals_exclusive(&self) -> bool {
        forall|r: int| 0 <= r < self.local_resources@.len() ==> #[trigger] self.local_users(r) <= 1
    }

    /// Whether some software task runs at priority `level`.
    pub open spec fn level_in_use(&self, level: int) -> bool {
        exists|t: int|
            0 <= t < self.software_tasks@.len() && (
            #[trigger] self.software_tasks@[t]).priority == level
    }

    /// How many of the priority levels `1..=upto` have a software task.
    pub open spec fn levels_in_use(&self, upto: int) -> nat
        decreases upto,
    {
        if upto <= 0 {
            0
        } else {
            self.levels_in_use(upto - 1) + if self.level_in_use(upto) {
                1nat
            } else {
                0nat
            }
        }
    }

    /// Every task has a priority above the idle context that the interrupt
    /// controller offers, and each priority level with software tasks has an
    /// interrupt to dispatch it.
    pub open spec fn priorities_schedulable(&self) -> bool {
        &&& forall|t: int|
            0 <= t < self.software_tasks@.len() ==> 1 <= (
            #[trigger] self.software_tasks@[t]).priority <= self.levels
        &&& forall|h: int|
            0 <= h < self.hardware_tasks@.len() ==> 1 <= (
            #[trigger] self.hardware_tasks@[h]).priority <= self.levels
        &&& self.levels_in_use(255) <= self.dispatchers@.len()
    }

    /// No interrupt serves two handlers.
    pub open spec fn bindings_distinct(&self) -> bool {
        &&& forall|i: int, j: int|
            0 <= i < j < self.hardware_tasks@.len() ==> (#[trigger] self.hardware_tasks@[i]).binds@
                != (#[trigger] self.hardware_tasks@[j]).binds@
        &&& forall|i: int, j: int|
            0 <= i < j < self.dispatchers@.len() ==> (#[trigger] self.dispatchers@[i])@ != (
            #[trigger] self.dispatchers@[j])@
        &&& forall|i: int, j: int|
            0 <= i < self.hardware_tasks@.len() && 0 <= j < self.dispatchers@.len() ==> (
            #[trigger] self.hardware_tasks@[i]).binds@ != (#[trigger] self.dispatchers@[j])@
    }

    /// Whether every context that accesses resource `r` runs at `priority`.
    pub open spec fn accessed_only_at(&self, r: int, priority: int) -> bool {
        &&& self.idle_accesses(r) ==> priority == 0
        &&& forall|t: int|
            #![trigger self.software_tasks@[t]]
            self.software_accesses(t, r) ==> self.software_tasks@[t].priority == priority
        &&& forall|h: int|
            #![trigger self.hardware_tasks@[h]]
            self.hardware_accesses(h, r) ==> self.hardware_tasks@[h].priority == priority
    }

    /// Every lock-free resource is accessed at one priority only.
    pub open spec fn lock_free_consistent(&self) -> bool {
        forall|r: int|
            0 <= r < self.shared_resources@.len() && (#[trigger] self.shared_resources@[r]).lock_free
                ==> exists|p: int| 0 <= p <= 255 && #[trigger] self.accessed_only_at(r, p)
    }

    /// Sum of the capacities of the first `n` software tasks that run at
    /// priority `level`.
    pub open spec fn level_capacity(&self, level: int, n: int) -> nat
        decreases n,
    {
        if n <= 0 {
            0
        } else {
            self.level_capacity(level, n - 1) + if self.priority_of(n - 1) == level {
                self.capacity_of(n - 1) as nat
            } else {
                0nat
            }
        }
    }

    /// The ready queue of every priority level can be indexed by a byte.
    pub open spec fn capacities_fit(&self) -> bool {
        forall|level: int|
            0 <= level <= 255 ==> #[trigger] self.level_capacity(
                level,
                self.software_tasks@.len() as int,
            ) <= 255
    }

    /// The first reason, in the order in which they are checked, why the
    /// description cannot be built; `None` for a valid description.
    pub open spec fn first_error(&self) -> Option<BuildConfigurationError> {
        if !self.resources_known() {
            Some(BuildConfigurationError::UnknownResource)
        } else if !self.priorities_schedulable() {
            Some(BuildConfigurationError::UnschedulablePriority)
        } else if !self.capacities_fit() {
            Some(BuildConfigurationError::CapacityOverflow)
        } else if !self.bindings_distinct() || !self.locals_exclusive() {
            Some(BuildConfigurationError::DuplicateBinding)
        } else if !self.lock_free_consistent() {
            Some(BuildConfigurationError::ConflictingCeilings)
        } else {
            None
        }
    }

    /// The description can be built into a running system.
    pub open spec fn valid(&self) -> bool {
        &&& self.resources_known()
        &&& self.priorities_schedulable()
        &&& self.capacities_fit()
        &&& self.bindings_distinct()
        &&& self.locals_exclusive()
        &&& self.lock_free_consistent()
    }
}

/// Among the first `n` software tasks, none that accesses resource `r` has a
/// priority above `software_ceiling`, and the value is 0 or the priority of
/// one of them.
pub proof fn lemma_software_ceiling(app: &App, r: int, n: int)
    requires
        0 <= n <= app.software_tasks@.len(),
    ensures
        0 <= app.software_ceiling(r, n) <= 255,
        forall|t: int|
            0 <= t < n && app.software_accesses(t, r) ==> #[trigger] app.priority_of(t)
                <= app.software_ceiling(r, n),
        app.software_ceiling(r, n) == 0 || exists|t: int|
            0 <= t < n && app.software_accesses(t, r) && #[trigger] app.priority_of(t)
                == app.software_ceiling(r, n),
    decreases n,
{
    if n > 0 {
        lemma_software_ceiling(app, r, n - 1);
        let rest = app.software_ceiling(r, n - 1);
        if app.software_accesses(n - 1, r) && app.priority_of(n - 1) > rest {
            assert(app.priority_of(n - 1) == app.software_ceiling(r, n));
        } else if rest != 0 {
            let t = choose|t: int|
                0 <= t < n - 1 && app.software_accesses(t, r) && #[trigger] app.priority_of(t)
                    == rest;
            assert(app.priority_of(t) == app.software_ceiling(r, n));
        }
    }
}

/// Among the first `n` hardware tasks, none that accesses resource `r` has a
/// priority above `hardware_ceiling`, and the value is 0 or the priority of
/// one of them.
pub proof fn lemma_hardware_ceiling(app: &App, r: int, n: int)
    requires
        0 <= n <= app.hardware_tasks@.len(),
    ensures
        0 <= app.hardware_ceiling(r, n) <= 255,
        forall|h: int|
            0 <= h < n && app.hardware_accesses(h, r) ==> #[trigger] app.hardware_priority_of(h)
                <= app.hardware_ceiling(r, n),
        app.hardware_ceiling(r, n) == 0 || exists|h: int|
            0 <= h < n && app.hardware_accesses(h, r) && #[trigger] app.hardware_priority_of(h)
                == app.hardware_ceiling(r, n),
    decreases n,
{
    if n > 0 {
        lemma_hardware_ceiling(app, r, n - 1);
        let rest = app.hardware_ceiling(r, n - 1);
        if app.hardware_accesses(n - 1, r) && app.hardware_priority_of(n - 1) > rest {
            assert(app.hardware_priority_of(n - 1) == app.hardware_ceiling(r, n));
        } else if rest != 0 {
            let h = choose|h: int|
                0 <= h < n - 1 && app.hardware_accesses(h, r)
                    && #[trigger] app.hardware_priority_of(h) == rest;
            assert(app.hardware_priority_of(h) == app.hardware_ceiling(r, n));
        }
    }
}

/// The ceiling of a resource is the highest priority of its accessors: no
/// task that accesses the resource runs above it, and unless it is 0 some
/// task that accesses the resource runs exactly at it.
pub proof fn lemma_ceiling_is_highest_accessor(app: &App, r: int)
    ensures
        0 <= app.ceiling(r) <= 255,
        forall|t: int| app.software_accesses(t, r) ==> #[trigger] app.priority_of(t) <= app.ceiling(r),
        forall|h: int|
            app.hardware_accesses(h, r) ==> #[trigger] app.hardware_priority_of(h) <= app.ceiling(
                r,
            ),
        app.ceiling(r) == 0 || (exists|t: int|
            app.software_accesses(t, r) && #[trigger] app.priority_of(t) == app.ceiling(r)) || (
        exists|h: int|
            app.hardware_accesses(h, r) && #[trigger] app.hardware_priority_of(h) == app.ceiling(r)),
{
    lemma_software_ceiling(app, r, app.software_tasks@.len() as int);
    lemma_hardware_ceiling(app, r, app.hardware_tasks@.len() as int);
}

} // verus!
