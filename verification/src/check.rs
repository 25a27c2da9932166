//! Checks that an application description can be built.

use crate::analyze::{capacity_of_level, level_in_use, names_resource};
use crate::app::{all_below, App, BuildConfigurationError};
use crate::model::level_capacity;
use vstd::prelude::*;

verus! {

/// Whether every entry of `list` is below `bound`.
fn list_below(list: &Vec<usize>, bound: usize) -> (b: bool)
    ensures
        b == all_below(list@, bound as nat),
{
    let mut k: usize = 0;
    while k < list.len()
        invariant
            k <= list.len(),
            forall|j: int| 0 <= j < k ==> list@[j] < bound,
        decreases list.len() - k,
    {
        if list[k] >= bound {
            return false;
        }
        k += 1;
    }
    true
}

/// Whether every resource that a context names is declared.
fn resources_known(app: &App) -> (b: bool)
    ensures
        b == app.resources_known(),
{
    let n = app.shared_resources.len();
    let m = app.local_resources.len();
    let idle_known = list_below(&app.idle_shared_resources, n);
    let init_known = list_below(&app.init_local_resources, m);
    if !idle_known || !init_known {
        return false;
    }
    let mut t: usize = 0;
    while t < app.software_tasks.len()
        invariant
            n == app.shared_resources@.len(),
            m == app.local_resources@.len(),
            t <= app.software_tasks.len(),
            forall|u: int| 0 <= u < t ==> #[trigger] app.software_known(u),
        decreases app.software_tasks.len() - t,
    {
        let shared_known = list_below(&app.software_tasks[t].shared_resources, n);
        let local_known = list_below(&app.software_tasks[t].local_resources, m);
        if !shared_known || !local_known {
            assert(!app.software_known(t as int));
            return false;
        }
        t += 1;
    }
    let mut h: usize = 0;
    while h < app.hardware_tasks.len()
        invariant
            n == app.shared_resources@.len(),
            m == app.local_resources@.len(),
            h <= app.hardware_tasks.len(),
            forall|u: int| 0 <= u < h ==> #[trigger] app.hardware_known(u),
        decreases app.hardware_tasks.len() - h,
    {
        let shared_known = list_below(&app.hardware_tasks[h].shared_resources, n);
        let local_known = list_below(&app.hardware_tasks[h].local_resources, m);
        if !shared_known || !local_known {
            assert(!app.hardware_known(h as int));
            return false;
        }
        h += 1;
    }
    true
}

/// Whether every task has a priority above the idle context, and each
/// priority level with software tasks has an interrupt to dispatch it.
fn priorities_schedulable(app: &App) -> (b: bool)
    ensures
        b == app.priorities_schedulable(),
{
    let mut t: usize = 0;
    while t < app.software_tasks.len()
        invariant
            t <= app.software_tasks.len(),
            forall|u: int|
                0 <= u < t ==> 1 <= (#[trigger] app.software_tasks@[u]).priority <= app.levels,
        decreases app.software_tasks.len() - t,
    {
        if app.software_tasks[t].priority == 0 || app.software_tasks[t].priority > app.levels {
            return false;
        }
        t += 1;
    }
    let mut h: usize = 0;
    while h < app.hardware_tasks.len()
        invariant
            h <= app.hardware_tasks.len(),
            forall|u: int|
                0 <= u < h ==> 1 <= (#[trigger] app.hardware_tasks@[u]).priority <= app.levels,
        decreases app.hardware_tasks.len() - h,
    {
        if app.hardware_tasks[h].priority == 0 || app.hardware_tasks[h].priority > app.levels {
            return false;
        }
        h += 1;
    }
    let mut used: usize = 0;
    let mut level: u8 = 0;
    while level < 255
        invariant
            used == app.levels_in_use(level as int),
            used <= level,
        decreases 255 - level,
    {
        level += 1;
        if level_in_use(app, level) {
            used += 1;
        }
    }
    used <= app.dispatchers.len()
}

/// Whether the tasks of every priority level have at most 255 slots
/// together.
fn capacities_fit(app: &App) -> (b: bool)
    ensures
        b == app.capacities_fit(),
{
    let mut level: usize = 0;
    while level < 256
        invariant
            level <= 256,
            forall|l: int|
                0 <= l < level ==> #[trigger] app.level_capacity(
                    l,
                    app.software_tasks@.len() as int,
                ) <= 255,
        decreases 256 - level,
    {
        if capacity_of_level(app, level as u8).is_none() {
            assert(level_capacity(app, level as int, app.software_tasks@.len() as int)
                == app.level_capacity(level as int, app.software_tasks@.len() as int));
            return false;
        }
        assert(level_capacity(app, level as int, app.software_tasks@.len() as int)
            == app.level_capacity(level as int, app.software_tasks@.len() as int));
        level += 1;
    }
    true
}

/// Whether no interrupt serves two handlers.
fn bindings_distinct(app: &App) -> (b: bool)
    ensures
        b == app.bindings_distinct(),
{
    let nh = app.hardware_tasks.len();
    let nd = app.dispatchers.len();
    let mut j: usize = 0;
    while j < nh
        invariant
            nh == app.hardware_tasks@.len(),
            j <= nh,
            forall|a: int, c: int|
                0 <= a < c < j ==> (#[trigger] app.hardware_tasks@[a]).binds@ != (
                #[trigger] app.hardware_tasks@[c]).binds@,
        decreases nh - j,
    {
        let mut i: usize = 0;
        while i < j
            invariant
                nh == app.hardware_tasks@.len(),
                i <= j < nh,
                forall|a: int|
                    0 <= a < i ==> (#[trigger] app.hardware_tasks@[a]).binds@
                        != app.hardware_tasks@[j as int].binds@,
            decreases j - i,
        {
            if app.hardware_tasks[i].binds == app.hardware_tasks[j].binds {
                return false;
            }
            i += 1;
        }
        j += 1;
    }
    let mut j: usize = 0;
    while j < nd
        invariant
            nd == app.dispatchers@.len(),
            j <= nd,
            forall|a: int, c: int|
                0 <= a < c < j ==> (#[trigger] app.dispatchers@[a])@ != (
                #[trigger] app.dispatchers@[c])@,
        decreases nd - j,
    {
        let mut i: usize = 0;
        while i < j
            invariant
                nd == app.dispatchers@.len(),
                i <= j < nd,
                forall|a: int|
                    0 <= a < i ==> (#[trigger] app.dispatchers@[a])@ != app.dispatchers@[j as int]@,
            decreases j - i,
        {
            if app.dispatchers[i] == app.dispatchers[j] {
                return false;
            }
            i += 1;
        }
        j += 1;
    }
    let mut i: usize = 0;
    while i < nh
        invariant
            nh == app.hardware_tasks@.len(),
            nd == app.dispatchers@.len(),
            i <= nh,
            forall|a: int, c: int|
                0 <= a < i && 0 <= c < nd ==> (#[trigger] app.hardware_tasks@[a]).binds@ != (
                #[trigger] app.dispatchers@[c])@,
        decreases nh - i,
    {
        let mut j: usize = 0;
        while j < nd
            invariant
                nh == app.hardware_tasks@.len(),
                nd == app.dispatchers@.len(),
                i < nh,
                j <= nd,
                forall|c: int|
                    0 <= c < j ==> app.hardware_tasks@[i as int].binds@ != (
                    #[trigger] app.dispatchers@[c])@,
            decreases nd - j,
        {
            if app.hardware_tasks[i].binds == app.dispatchers[j] {
                return false;
            }
            j += 1;
        }
        i += 1;
    }
    true
}

/// The counts of users never fall as more tasks are taken in.
proof fn lemma_users_grow(app: &App, r: int, n: int, m: int)
    requires
        0 <= n <= m,
    ensures
        app.software_users(r, n) <= app.software_users(r, m),
        app.hardware_users(r, n) <= app.hardware_users(r, m),
    decreases m - n,
{
    if n < m {
        lemma_users_grow(app, r, n, m - 1);
    }
}

/// Whether local resource `r` belongs to one context at most.
fn local_is_exclusive(app: &App, r: usize) -> (b: bool)
    ensures
        b == (app.local_users(r as int) <= 1),
{
    let mut users: u8 = if names_resource(&app.init_local_resources, r) {
        1
    } else {
        0
    };
    let ghost first = users;
    let mut t: usize = 0;
    while t < app.software_tasks.len()
        invariant
            t <= app.software_tasks.len(),
            users <= 1,
            first <= 1,
            users == first + app.software_users(r as int, t as int),
            first == if app.init_local_resources@.contains(r) {
                1int
            } else {
                0int
            },
        decreases app.software_tasks.len() - t,
    {
        if names_resource(&app.software_tasks[t].local_resources, r) {
            if users == 1 {
                proof {
                    lemma_users_grow(app, r as int, t + 1, app.software_tasks@.len() as int);
                }
                return false;
            }
            users = 1;
        }
        t += 1;
    }
    let mut h: usize = 0;
    while h < app.hardware_tasks.len()
        invariant
            h <= app.hardware_tasks.len(),
            users <= 1,
            first <= 1,
            users == first + app.software_users(r as int, app.software_tasks@.len() as int)
                + app.hardware_users(r as int, h as int),
            first == if app.init_local_resources@.contains(r) {
                1int
            } else {
                0int
            },
        decreases app.hardware_tasks.len() - h,
    {
        if names_resource(&app.hardware_tasks[h].local_resources, r) {
            if users == 1 {
                proof {
                    lemma_users_grow(app, r as int, h + 1, app.hardware_tasks@.len() as int);
                }
                return false;
            }
            users = 1;
        }
        h += 1;
    }
    true
}

/// Whether every local resource belongs to one context at most.
fn locals_exclusive(app: &App) -> (b: bool)
    ensures
        b == app.locals_exclusive(),
{
    let mut r: usize = 0;
    while r < app.local_resources.len()
        invariant
            r <= app.local_resources.len(),
            forall|k: int| 0 <= k < r ==> #[trigger] app.local_users(k) <= 1,
        decreases app.local_resources.len() - r,
    {
        if !local_is_exclusive(app, r) {
            return false;
        }
        r += 1;
    }
    true
}

/// Whether every context that accesses resource `r` runs at one and the
/// same priority.
fn accessed_at_one_priority(app: &App, r: usize) -> (b: bool)
    ensures
        b == exists|p: int| 0 <= p <= 255 && #[trigger] app.accessed_only_at(r as int, p),
{
    let mut seen: Option<u8> = if names_resource(&app.idle_shared_resources, r) {
        Some(0)
    } else {
        None
    };
    let mut t: usize = 0;
    while t < app.software_tasks.len()
        invariant
            t <= app.software_tasks.len(),
            seen is None ==> !app.idle_accesses(r as int) && forall|u: int|
                0 <= u < t ==> !app.software_accesses(u, r as int),
            seen matches Some(p) ==> (app.idle_accesses(r as int) ==> p == 0) && (forall|u: int|
                #![trigger app.software_tasks@[u]]
                0 <= u < t && app.software_accesses(u, r as int) ==> app.software_tasks@[u].priority
                    == p) && (forall|q: int| app.accessed_only_at(r as int, q) ==> q == p),
        decreases app.software_tasks.len() - t,
    {
        let task = &app.software_tasks[t];
        if names_resource(&task.shared_resources, r) {
            assert(app.software_accesses(t as int, r as int));
            assert(forall|q: int|
                app.accessed_only_at(r as int, q) ==> app.software_tasks@[t as int].priority == q);
            match seen {
                None => {
                    seen = Some(task.priority);
                },
                Some(p) => {
                    if p != task.priority {
                        return false;
                    }
                },
            }
        }
        t += 1;
    }
    let mut h: usize = 0;
    while h < app.hardware_tasks.len()
        invariant
            h <= app.hardware_tasks.len(),
            seen is None ==> !app.idle_accesses(r as int) && (forall|u: int|
                !app.software_accesses(u, r as int)) && forall|u: int|
                0 <= u < h ==> !app.hardware_accesses(u, r as int),
            seen matches Some(p) ==> (app.idle_accesses(r as int) ==> p == 0) && (forall|u: int|
                #![trigger app.software_tasks@[u]]
                app.software_accesses(u, r as int) ==> app.software_tasks@[u].priority == p) && (
            forall|u: int|
                #![trigger app.hardware_tasks@[u]]
                0 <= u < h && app.hardware_accesses(u, r as int) ==> app.hardware_tasks@[u].priority
                    == p) && (forall|q: int| app.accessed_only_at(r as int, q) ==> q == p),
        decreases app.hardware_tasks.len() - h,
    {
        let task = &app.hardware_tasks[h];
        if names_resource(&task.shared_resources, r) {
            assert(app.hardware_accesses(h as int, r as int));
            assert(forall|q: int|
                app.accessed_only_at(r as int, q) ==> app.hardware_tasks@[h as int].priority == q);
            match seen {
                None => {
                    seen = Some(task.priority);
                },
                Some(p) => {
                    if p != task.priority {
                        return false;
                    }
                },
            }
        }
        h += 1;
    }
    proof {
        match seen {
            None => {
                assert(app.accessed_only_at(r as int, 0));
            },
            Some(p) => {
                assert(app.accessed_only_at(r as int, p as int));
            },
        }
    }
    true
}

/// Whether every lock-free resource is accessed at one priority only.
fn lock_free_consistent(app: &App) -> (b: bool)
    ensures
        b == app.lock_free_consistent(),
{
    let mut r: usize = 0;
    while r < app.shared_resources.len()
        invariant
            r <= app.shared_resources.len(),
            forall|k: int|
                0 <= k < r && (#[trigger] app.shared_resources@[k]).lock_free ==> exists|p: int|
                    0 <= p <= 255 && #[trigger] app.accessed_only_at(k, p),
        decreases app.shared_resources.len() - r,
    {
        if app.shared_resources[r].lock_free && !accessed_at_one_priority(app, r) {
            return false;
        }
        r += 1;
    }
    true
}

/// Checks that the application can be built.
///
/// The conditions are checked in a fixed order and the first one that
/// fails is reported: every named resource is declared; every task has a
/// priority above 0 that the interrupt controller offers, and every
/// priority level with software tasks has a dispatcher; the slots of each
/// level number at most 255; no interrupt serves two handlers and no local
/// resource two contexts; every lock-free resource is accessed at one
/// priority only.
pub fn app(description: &App) -> (r: Result<(), BuildConfigurationError>)
    ensures
        r is Ok <==> description.valid(),
        r == match description.first_error() {
            Some(e) => Err::<(), BuildConfigurationError>(e),
            None => Ok::<(), BuildConfigurationError>(()),
        },
{
    if !resources_known(description) {
        Err(BuildConfigurationError::UnknownResource)
    } else if !priorities_schedulable(description) {
        Err(BuildConfigurationError::UnschedulablePriority)
    } else if !capacities_fit(description) {
        Err(BuildConfigurationError::CapacityOverflow)
    } else if !bindings_distinct(description) || !locals_exclusive(description) {
        Err(BuildConfigurationError::DuplicateBinding)
    } else if !lock_free_consistent(description) {
        Err(BuildConfigurationError::ConflictingCeilings)
    } else {
        Ok(())
    }
}

} // verus!
