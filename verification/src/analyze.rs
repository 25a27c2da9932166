//! What is derived from an application description before it runs: the
//! ceiling of each shared resource and the make-up of each priority level.

use crate::app::App;
use crate::model::level_capacity;
use vstd::prelude::*;

verus! {

/// Whether `list` names resource `r`.
pub fn names_resource(list: &Vec<usize>, r: usize) -> (found: bool)
    ensures
        found == list@.contains(r),
{
    let mut k: usize = 0;
    while k < list.len()
        invariant
            k <= list.len(),
            forall|j: int| 0 <= j < k ==> list@[j] != r,
        decreases list.len() - k,
    {
        if list[k] == r {
            return true;
        }
        k += 1;
    }
    false
}

/// The ceiling of shared resource `r`: the highest priority of any task that
/// may access it, and 0 when only the idle context does or nothing does.
pub fn ceiling_of(app: &App, r: usize) -> (c: u8)
    ensures
        c == app.ceiling(r as int),
{
    let mut soft: u8 = 0;
    let mut t: usize = 0;
    while t < app.software_tasks.len()
        invariant
            t <= app.software_tasks.len(),
            soft == app.software_ceiling(r as int, t as int),
        decreases app.software_tasks.len() - t,
    {
        let task = &app.software_tasks[t];
        if names_resource(&task.shared_resources, r) && task.priority > soft {
            soft = task.priority;
        }
        t += 1;
    }
    let mut hard: u8 = 0;
    let mut h: usize = 0;
    while h < app.hardware_tasks.len()
        invariant
            h <= app.hardware_tasks.len(),
            hard == app.hardware_ceiling(r as int, h as int),
        decreases app.hardware_tasks.len() - h,
    {
        let task = &app.hardware_tasks[h];
        if names_resource(&task.shared_resources, r) && task.priority > hard {
            hard = task.priority;
        }
        h += 1;
    }
    if soft >= hard {
        soft
    } else {
        hard
    }
}

/// The ceiling of every shared resource, in the order of declaration.
pub fn ceilings(app: &App) -> (table: Vec<u8>)
    ensures
        table@.len() == app.shared_resources@.len(),
        forall|r: int| 0 <= r < table@.len() ==> table@[r] == app.ceiling(r),
{
    let mut table: Vec<u8> = Vec::new();
    let mut r: usize = 0;
    while r < app.shared_resources.len()
        invariant
            r <= app.shared_resources.len(),
            table@.len() == r,
            forall|j: int| 0 <= j < r ==> table@[j] == app.ceiling(j),
        decreases app.shared_resources.len() - r,
    {
        table.push(ceiling_of(app, r));
        r += 1;
    }
    table
}

/// The capacities of the first `n` tasks of a level never add up to more
/// than those of the first `m`, for `n <= m`.
pub proof fn lemma_level_capacity_grows(app: &App, level: int, n: int, m: int)
    requires
        0 <= n <= m,
    ensures
        level_capacity(app, level, n) <= level_capacity(app, level, m),
    decreases m - n,
{
    if n < m {
        lemma_level_capacity_grows(app, level, n, m - 1);
    }
    assert(level_capacity(app, level, n) == app.level_capacity(level, n));
}

/// How many instances can be ready at priority `level` at once: the sum of
/// the capacities of the software tasks of that level, or `None` when the
/// sum is above 255.
pub fn capacity_of_level(app: &App, level: u8) -> (total: Option<u8>)
    ensures
        match total {
            Some(c) => c == level_capacity(app, level as int, app.software_tasks@.len() as int),
            None => level_capacity(app, level as int, app.software_tasks@.len() as int) > 255,
        },
{
    let mut sum: u8 = 0;
    let mut t: usize = 0;
    while t < app.software_tasks.len()
        invariant
            t <= app.software_tasks.len(),
            sum == level_capacity(app, level as int, t as int),
        decreases app.software_tasks.len() - t,
    {
        let task = &app.software_tasks[t];
        if task.priority == level {
            if task.capacity > 255 - sum {
                proof {
                    lemma_level_capacity_grows(
                        app,
                        level as int,
                        t + 1,
                        app.software_tasks@.len() as int,
                    );
                }
                return None;
            }
            sum = sum + task.capacity;
        }
        t += 1;
    }
    Some(sum)
}

/// Whether some software task runs at priority `level`.
pub fn level_in_use(app: &App, level: u8) -> (b: bool)
    ensures
        b == app.level_in_use(level as int),
{
    let mut t: usize = 0;
    while t < app.software_tasks.len()
        invariant
            t <= app.software_tasks.len(),
            forall|u: int| 0 <= u < t ==> (#[trigger] app.software_tasks@[u]).priority != level,
        decreases app.software_tasks.len() - t,
    {
        if app.software_tasks[t].priority == level {
            return true;
        }
        t += 1;
    }
    false
}

/// The software tasks of one priority level, which share a dispatcher and a
/// ready queue.
pub struct Channel {
    pub level: u8,
    /// How many instances can be ready at this level at once.
    pub capacity: u8,
    /// The tasks of this level, in the order of declaration.
    pub tasks: Vec<usize>,
}

/// What is derived from an application description.
pub struct Analysis {
    /// One channel for each priority level with software tasks, lowest
    /// level first.
    pub channels: Vec<Channel>,
    /// The interrupt that dispatches each channel.
    pub interrupts: Vec<String>,
    /// The ceiling of each shared resource.
    pub ceilings: Vec<u8>,
    /// Whether each shared resource is used by some context.
    pub shared_live: Vec<bool>,
    /// Whether each local resource is used by some context.
    pub local_live: Vec<bool>,
}

/// Those of the first `n` software tasks that run at priority `level`, in
/// the order of declaration.
pub open spec fn tasks_at(app: &App, level: int, n: int) -> Seq<usize>
    decreases n,
{
    if n <= 0 {
        Seq::empty()
    } else if app.priority_of(n - 1) == level {
        tasks_at(app, level, n - 1).push((n - 1) as usize)
    } else {
        tasks_at(app, level, n - 1)
    }
}

/// What `tasks_at` lists: exactly the tasks of the level, each once, in
/// rising order.
pub proof fn lemma_tasks_at(app: &App, level: int, n: int)
    requires
        0 <= n <= app.software_tasks@.len(),
    ensures
        forall|j: int|
            0 <= j < tasks_at(app, level, n).len() ==> (#[trigger] tasks_at(app, level, n)[j]) < n
                && app.priority_of(tasks_at(app, level, n)[j] as int) == level,
        forall|i: int, j: int|
            0 <= i < j < tasks_at(app, level, n).len() ==> (#[trigger] tasks_at(app, level, n)[i])
                < (#[trigger] tasks_at(app, level, n)[j]),
        forall|t: int|
            0 <= t < n && app.priority_of(t) == level ==> tasks_at(app, level, n).contains(
                t as usize,
            ),
    decreases n,
{
    if n > 0 {
        lemma_tasks_at(app, level, n - 1);
        let before = tasks_at(app, level, n - 1);
        let now = tasks_at(app, level, n);
        assert(app.software_tasks@.len() == app.software_tasks.len());
        assert forall|t: int| 0 <= t < n && app.priority_of(t) == level implies now.contains(
            t as usize,
        ) by {
            if t < n - 1 {
                assert(before.contains(t as usize));
                let j = choose|j: int| 0 <= j < before.len() && before[j] == t as usize;
                assert(now[j] == t as usize);
            } else {
                assert(now[now.len() - 1] == t as usize);
            }
        }
    }
}

/// Whether some context uses shared resource `r`.
pub open spec fn shared_in_use(app: &App, r: int) -> bool {
    ||| app.idle_accesses(r)
    ||| exists|t: int| #[trigger] app.software_accesses(t, r)
    ||| exists|h: int| #[trigger] app.hardware_accesses(h, r)
}

/// Whether software task `t` uses local resource `r`.
pub open spec fn software_uses_local(app: &App, t: int, r: int) -> bool {
    0 <= t < app.software_tasks@.len() && app.software_tasks@[t].local_resources@.contains(
        r as usize,
    )
}

/// Whether hardware task `h` uses local resource `r`.
pub open spec fn hardware_uses_local(app: &App, h: int, r: int) -> bool {
    0 <= h < app.hardware_tasks@.len() && app.hardware_tasks@[h].local_resources@.contains(
        r as usize,
    )
}

/// Whether some context uses local resource `r`.
pub open spec fn local_in_use(app: &App, r: int) -> bool {
    ||| app.init_local_resources@.contains(r as usize)
    ||| exists|t: int| #[trigger] software_uses_local(app, t, r)
    ||| exists|h: int| #[trigger] hardware_uses_local(app, h, r)
}

impl Analysis {
    /// Whether there is a channel for priority `level`.
    pub open spec fn has_channel(&self, level: int) -> bool {
        exists|k: int| 0 <= k < self.channels@.len() && (#[trigger] self.channels@[k]).level == level
    }

    /// Channel `k` describes a priority level of `app` that is in use.
    pub open spec fn channel_matches(&self, app: &App, k: int) -> bool {
        let c = self.channels@[k];
        &&& 1 <= c.level
        &&& app.level_in_use(c.level as int)
        &&& c.tasks@ == tasks_at(app, c.level as int, app.software_tasks@.len() as int)
        &&& c.capacity == app.level_capacity(c.level as int, app.software_tasks@.len() as int)
        &&& self.interrupts@[k]@ == app.dispatchers@[self.channels@.len() - 1 - k]@
    }

    /// This is the analysis of `app`: there is one channel for each priority
    /// level with software tasks, lowest first; the highest level is
    /// dispatched by the first interrupt set aside for dispatching, the next
    /// by the second, and so on; each resource has its ceiling and is marked
    /// live when some context uses it.
    pub open spec fn wf(&self, app: &App) -> bool {
        &&& self.channels@.len() == app.levels_in_use(255)
        &&& self.interrupts@.len() == self.channels@.len()
        &&& self.channels@.len() <= app.dispatchers@.len()
        &&& forall|k: int| 0 <= k < self.channels@.len() ==> #[trigger] self.channel_matches(app, k)
        &&& forall|i: int, j: int|
            0 <= i < j < self.channels@.len() ==> (#[trigger] self.channels@[i]).level < (
            #[trigger] self.channels@[j]).level
        &&& forall|level: int|
            1 <= level <= 255 && #[trigger] app.level_in_use(level) ==> self.has_channel(level)
        &&& self.ceilings@.len() == app.shared_resources@.len()
        &&& forall|r: int|
            0 <= r < self.ceilings@.len() ==> (#[trigger] self.ceilings@[r]) == app.ceiling(r)
        &&& self.shared_live@.len() == app.shared_resources@.len()
        &&& forall|r: int|
            0 <= r < self.shared_live@.len() ==> (#[trigger] self.shared_live@[r]) == shared_in_use(
                app,
                r,
            )
        &&& self.local_live@.len() == app.local_resources@.len()
        &&& forall|r: int|
            0 <= r < self.local_live@.len() ==> (#[trigger] self.local_live@[r]) == local_in_use(
                app,
                r,
            )
    }
}

/// The software tasks that run at priority `level`, in the order of
/// declaration.
pub fn tasks_of_level(app: &App, level: u8) -> (tasks: Vec<usize>)
    ensures
        tasks@ == tasks_at(app, level as int, app.software_tasks@.len() as int),
{
    let mut tasks: Vec<usize> = Vec::new();
    let mut t: usize = 0;
    while t < app.software_tasks.len()
        invariant
            t <= app.software_tasks.len(),
            tasks@ == tasks_at(app, level as int, t as int),
        decreases app.software_tasks.len() - t,
    {
        if app.software_tasks[t].priority == level {
            tasks.push(t);
        }
        t += 1;
    }
    tasks
}

/// Whether some context uses shared resource `r`.
pub fn shared_is_live(app: &App, r: usize) -> (b: bool)
    ensures
        b == shared_in_use(app, r as int),
{
    if names_resource(&app.idle_shared_resources, r) {
        return true;
    }
    let mut t: usize = 0;
    while t < app.software_tasks.len()
        invariant
            t <= app.software_tasks.len(),
            forall|u: int| 0 <= u < t ==> !app.software_accesses(u, r as int),
        decreases app.software_tasks.len() - t,
    {
        if names_resource(&app.software_tasks[t].shared_resources, r) {
            assert(app.software_accesses(t as int, r as int));
            return true;
        }
        t += 1;
    }
    let mut h: usize = 0;
    while h < app.hardware_tasks.len()
        invariant
            h <= app.hardware_tasks.len(),
            forall|u: int| !app.software_accesses(u, r as int),
            forall|u: int| 0 <= u < h ==> !app.hardware_accesses(u, r as int),
        decreases app.hardware_tasks.len() - h,
    {
        if names_resource(&app.hardware_tasks[h].shared_resources, r) {
            assert(app.hardware_accesses(h as int, r as int));
            return true;
        }
        h += 1;
    }
    false
}

/// Whether some context uses local resource `r`.
pub fn local_is_live(app: &App, r: usize) -> (b: bool)
    ensures
        b == local_in_use(app, r as int),
{
    if names_resource(&app.init_local_resources, r) {
        return true;
    }
    let mut t: usize = 0;
    while t < app.software_tasks.len()
        invariant
            t <= app.software_tasks.len(),
            forall|u: int| 0 <= u < t ==> !software_uses_local(app, u, r as int),
        decreases app.software_tasks.len() - t,
    {
        if names_resource(&app.software_tasks[t].local_resources, r) {
            assert(software_uses_local(app, t as int, r as int));
            return true;
        }
        t += 1;
    }
    let mut h: usize = 0;
    while h < app.hardware_tasks.len()
        invariant
            h <= app.hardware_tasks.len(),
            forall|u: int| !software_uses_local(app, u, r as int),
            forall|u: int| 0 <= u < h ==> !hardware_uses_local(app, u, r as int),
        decreases app.hardware_tasks.len() - h,
    {
        if names_resource(&app.hardware_tasks[h].local_resources, r) {
            assert(hardware_uses_local(app, h as int, r as int));
            return true;
        }
        h += 1;
    }
    false
}

/// Analyses a valid application.
pub fn app(description: &App) -> (analysis: Analysis)
    requires
        description.valid(),
    ensures
        analysis.wf(description),
{
    let app = description;
    let mut channels: Vec<Channel> = Vec::new();
    let mut level: u8 = 0;
    while level < 255
        invariant
            app.valid(),
            channels@.len() == app.levels_in_use(level as int),
            channels@.len() <= level,
            forall|k: int|
                0 <= k < channels@.len() ==> {
                    let c = #[trigger] channels@[k];
                    &&& 1 <= c.level <= level
                    &&& app.level_in_use(c.level as int)
                    &&& c.tasks@ == tasks_at(app, c.level as int, app.software_tasks@.len() as int)
                    &&& c.capacity == app.level_capacity(
                        c.level as int,
                        app.software_tasks@.len() as int,
                    )
                },
            forall|i: int, j: int|
                0 <= i < j < channels@.len() ==> (#[trigger] channels@[i]).level < (
                #[trigger] channels@[j]).level,
            forall|l: int|
                1 <= l <= level && #[trigger] app.level_in_use(l) ==> exists|k: int|
                    0 <= k < channels@.len() && (#[trigger] channels@[k]).level == l,
        decreases 255 - level,
    {
        level += 1;
        let ghost before = channels@;
        if level_in_use(app, level) {
            assert(app.level_capacity(level as int, app.software_tasks@.len() as int) <= 255);
            let capacity = capacity_of_level(app, level);
            let tasks = tasks_of_level(app, level);
            channels.push(Channel { level, capacity: capacity.unwrap(), tasks });
            assert(channels@[before.len() as int].level == level);
        }
        assert forall|l: int| 1 <= l <= level && #[trigger] app.level_in_use(l) implies exists|
            k: int,
        | 0 <= k < channels@.len() && (#[trigger] channels@[k]).level == l by {
            if l < level {
                let k = choose|k: int| 0 <= k < before.len() && (#[trigger] before[k]).level == l;
                assert(channels@[k].level == l);
            }
        }
    }
    let count = channels.len();
    let mut interrupts: Vec<String> = Vec::new();
    let mut k: usize = 0;
    while k < count
        invariant
            count == channels@.len(),
            count <= app.dispatchers@.len(),
            k <= count,
            interrupts@.len() == k,
            forall|j: int|
                0 <= j < k ==> (#[trigger] interrupts@[j])@ == app.dispatchers@[count - 1 - j]@,
        decreases count - k,
    {
        interrupts.push(app.dispatchers[count - 1 - k].clone());
        k += 1;
    }
    let table = ceilings(app);
    let mut shared_live: Vec<bool> = Vec::new();
    let mut r: usize = 0;
    while r < app.shared_resources.len()
        invariant
            r <= app.shared_resources.len(),
            shared_live@.len() == r,
            forall|j: int| 0 <= j < r ==> (#[trigger] shared_live@[j]) == shared_in_use(app, j),
        decreases app.shared_resources.len() - r,
    {
        shared_live.push(shared_is_live(app, r));
        r += 1;
    }
    let mut local_live: Vec<bool> = Vec::new();
    let mut r: usize = 0;
    while r < app.local_resources.len()
        invariant
            r <= app.local_resources.len(),
            local_live@.len() == r,
            forall|j: int| 0 <= j < r ==> (#[trigger] local_live@[j]) == local_in_use(app, j),
        decreases app.local_resources.len() - r,
    {
        local_live.push(local_is_live(app, r));
        r += 1;
    }
    let analysis = Analysis { channels, interrupts, ceilings: table, shared_live, local_live };
    assert forall|k: int| 0 <= k < analysis.channels@.len() implies #[trigger] analysis.channel_matches(
        app,
        k,
    ) by {
        let c = analysis.channels@[k];
        assert(1 <= c.level);
    }
    analysis
}

} // verus!
