//! Bring-up: what happens between the return of the initialisation routine
//! and the first interrupt.
//!
//! Bring-up passes through four phases, in this order and never back:
//! nothing has happened; the initialisation routine has produced the first
//! value of every resource and clock; every value has been written to its
//! storage and every clock has been reset and stored; interrupts are
//! enabled. Only a system that has reached the last phase has a scheduler.

use crate::analyze::{self, Analysis};
use crate::app::{App, BuildConfigurationError};
use crate::check;
use crate::model::State;
use crate::scheduler::Scheduler;
use vstd::pervasive::unreached;
use vstd::prelude::*;

verus! {

/// One step of bring-up after the initialisation routine has returned.
#[derive(Clone, Copy, Debug, PartialEq, Eq, Structural)]
pub enum PostInitStep {
    /// Write the first value of a shared resource to its storage.
    WriteShared(usize),
    /// Write the first value of a local resource to its storage.
    WriteLocal(usize),
    /// Set up an instrumentation probe in its storage.
    InitProbe(usize),
    /// Reset a monotonic clock.
    ResetMonotonic(usize),
    /// Store a monotonic clock where the scheduler finds it.
    StoreMonotonic(usize),
    /// Enable interrupts. This ends bring-up.
    EnableInterrupts,
}

/// How far bring-up has come.
#[derive(Clone, Copy, Debug, PartialEq, Eq, Structural)]
pub enum Phase {
    Uninitialized,
    ResourcesConstructed,
    MonotonicsArmed,
    Live,
}

/// Why a step of bring-up was refused.
#[derive(Clone, Copy, Debug, PartialEq, Eq, Structural)]
pub enum BringUpError {
    /// The step does not belong to the phase bring-up is in.
    OutOfOrder,
    /// The step was taken before.
    Repeated,
    /// The step names a resource, probe or clock that the application does
    /// not have.
    Unknown,
}

/// The steps that write the first `n` shared resources.
pub open spec fn shared_steps(n: int) -> Seq<PostInitStep>
    decreases n,
{
    if n <= 0 {
        Seq::empty()
    } else {
        shared_steps(n - 1).push(PostInitStep::WriteShared((n - 1) as usize))
    }
}

/// The steps that write the first `n` local resources.
pub open spec fn local_steps(n: int) -> Seq<PostInitStep>
    decreases n,
{
    if n <= 0 {
        Seq::empty()
    } else {
        local_steps(n - 1).push(PostInitStep::WriteLocal((n - 1) as usize))
    }
}

/// The steps that set up the first `n` probes.
pub open spec fn probe_steps(n: int) -> Seq<PostInitStep>
    decreases n,
{
    if n <= 0 {
        Seq::empty()
    } else {
        probe_steps(n - 1).push(PostInitStep::InitProbe((n - 1) as usize))
    }
}

/// The steps that reset and store the first `n` clocks.
pub open spec fn clock_steps(n: int) -> Seq<PostInitStep>
    decreases n,
{
    if n <= 0 {
        Seq::empty()
    } else {
        clock_steps(n - 1).push(PostInitStep::ResetMonotonic((n - 1) as usize)).push(
            PostInitStep::StoreMonotonic((n - 1) as usize),
        )
    }
}

/// The steps that run after the initialisation routine returns: every
/// shared resource is written, then every local resource, then every probe
/// is set up, then every clock is reset and stored, and at the very end
/// interrupts are enabled.
pub open spec fn post_init_steps(app: &App) -> Seq<PostInitStep> {
    shared_steps(app.shared_resources@.len() as int) + local_steps(
        app.local_resources@.len() as int,
    ) + probe_steps(app.probes@.len() as int) + clock_steps(app.monotonics@.len() as int)
        + seq![PostInitStep::EnableInterrupts]
}

/// Generates the steps that run after the initialisation routine returns.
pub fn codegen(app: &App) -> (stmts: Vec<PostInitStep>)
    ensures
        stmts@ == post_init_steps(app),
{
    let mut stmts: Vec<PostInitStep> = Vec::new();
    let ghost shared = shared_steps(app.shared_resources@.len() as int);
    let ghost local = local_steps(app.local_resources@.len() as int);
    let ghost probes = probe_steps(app.probes@.len() as int);
    let mut r: usize = 0;
    while r < app.shared_resources.len()
        invariant
            r <= app.shared_resources@.len(),
            stmts@ == shared_steps(r as int),
        decreases app.shared_resources@.len() - r,
    {
        stmts.push(PostInitStep::WriteShared(r));
        r += 1;
    }
    let mut r: usize = 0;
    while r < app.local_resources.len()
        invariant
            r <= app.local_resources@.len(),
            stmts@ == shared + local_steps(r as int),
        decreases app.local_resources@.len() - r,
    {
        stmts.push(PostInitStep::WriteLocal(r));
        r += 1;
    }
    let mut p: usize = 0;
    while p < app.probes.len()
        invariant
            p <= app.probes@.len(),
            stmts@ == shared + local + probe_steps(p as int),
        decreases app.probes@.len() - p,
    {
        stmts.push(PostInitStep::InitProbe(p));
        p += 1;
    }
    let mut m: usize = 0;
    while m < app.monotonics.len()
        invariant
            m <= app.monotonics@.len(),
            stmts@ == shared + local + probes + clock_steps(m as int),
        decreases app.monotonics@.len() - m,
    {
        stmts.push(PostInitStep::ResetMonotonic(m));
        stmts.push(PostInitStep::StoreMonotonic(m));
        m += 1;
    }
    stmts.push(PostInitStep::EnableInterrupts);
    stmts
}

/// What bring-up has done so far.
pub struct BringUpState {
    /// Whether the initialisation routine has returned.
    pub init_done: bool,
    pub shared_written: Seq<bool>,
    pub local_written: Seq<bool>,
    pub probes_ready: Seq<bool>,
    pub clocks_reset: Seq<bool>,
    pub clocks_stored: Seq<bool>,
    /// Whether interrupts are enabled.
    pub live: bool,
}

impl BringUpState {
    /// Bring-up of `app` before anything has happened.
    pub open spec fn initial(app: &App) -> Self {
        BringUpState {
            init_done: false,
            shared_written: Seq::new(app.shared_resources@.len(), |r: int| false),
            local_written: Seq::new(app.local_resources@.len(), |r: int| false),
            probes_ready: Seq::new(app.probes@.len(), |p: int| false),
            clocks_reset: Seq::new(app.monotonics@.len(), |m: int| false),
            clocks_stored: Seq::new(app.monotonics@.len(), |m: int| false),
            live: false,
        }
    }

    /// Every shared and every local resource has been written, every probe
    /// is set up, and every clock has been reset and stored.
    pub open spec fn all_done(self) -> bool {
        &&& forall|r: int| 0 <= r < self.shared_written.len() ==> #[trigger] self.shared_written[r]
        &&& forall|r: int| 0 <= r < self.local_written.len() ==> #[trigger] self.local_written[r]
        &&& forall|p: int| 0 <= p < self.probes_ready.len() ==> #[trigger] self.probes_ready[p]
        &&& forall|m: int| 0 <= m < self.clocks_stored.len() ==> #[trigger] self.clocks_stored[m]
    }

    /// The phase bring-up is in.
    pub open spec fn phase(self) -> Phase {
        if self.live {
            Phase::Live
        } else if !self.init_done {
            Phase::Uninitialized
        } else if self.all_done() {
            Phase::MonotonicsArmed
        } else {
            Phase::ResourcesConstructed
        }
    }

    /// No clock has been stored before it was reset, and interrupts are
    /// enabled only once everything is done.
    pub open spec fn wf(self) -> bool {
        &&& self.clocks_reset.len() == self.clocks_stored.len()
        &&& forall|m: int|
            0 <= m < self.clocks_stored.len() && #[trigger] self.clocks_stored[m]
                ==> self.clocks_reset[m]
        &&& self.live ==> self.init_done && self.all_done()
    }

    /// The initialisation routine returns. This is the only way out of the
    /// first phase.
    pub open spec fn init_returned(self) -> (Self, Result<(), BringUpError>) {
        if self.init_done || self.live {
            (self, Err(BringUpError::OutOfOrder))
        } else {
            (BringUpState { init_done: true, ..self }, Ok(()))
        }
    }

    /// One step is taken. A step is refused, and changes nothing, before
    /// the initialisation routine has returned and after interrupts are
    /// enabled; when the application does not have what it names; when it
    /// was taken before;
    /// when it stores a clock that was not reset; and when it enables
    /// interrupts before everything else is done.
    pub open spec fn apply(self, step: PostInitStep) -> (Self, Result<(), BringUpError>) {
        if !self.init_done || self.live {
            (self, Err(BringUpError::OutOfOrder))
        } else {
            match step {
                PostInitStep::WriteShared(r) => {
                    if !(r < self.shared_written.len()) {
                        (self, Err(BringUpError::Unknown))
                    } else if self.shared_written[r as int] {
                        (self, Err(BringUpError::Repeated))
                    } else {
                        (
                            BringUpState {
                                shared_written: self.shared_written.update(r as int, true),
                                ..self
                            },
                            Ok(()),
                        )
                    }
                },
                PostInitStep::WriteLocal(r) => {
                    if !(r < self.local_written.len()) {
                        (self, Err(BringUpError::Unknown))
                    } else if self.local_written[r as int] {
                        (self, Err(BringUpError::Repeated))
                    } else {
                        (
                            BringUpState {
                                local_written: self.local_written.update(r as int, true),
                                ..self
                            },
                            Ok(()),
                        )
                    }
                },
                PostInitStep::InitProbe(p) => {
                    if !(p < self.probes_ready.len()) {
                        (self, Err(BringUpError::Unknown))
                    } else if self.probes_ready[p as int] {
                        (self, Err(BringUpError::Repeated))
                    } else {
                        (
                            BringUpState {
                                probes_ready: self.probes_ready.update(p as int, true),
                                ..self
                            },
                            Ok(()),
                        )
                    }
                },
                PostInitStep::ResetMonotonic(m) => {
                    if !(m < self.clocks_reset.len()) {
                        (self, Err(BringUpError::Unknown))
                    } else if self.clocks_reset[m as int] {
                        (self, Err(BringUpError::Repeated))
                    } else {
                        (
                            BringUpState {
                                clocks_reset: self.clocks_reset.update(m as int, true),
                                ..self
                            },
                            Ok(()),
                        )
                    }
                },
                PostInitStep::StoreMonotonic(m) => {
                    if !(m < self.clocks_stored.len()) {
                        (self, Err(BringUpError::Unknown))
                    } else if !self.clocks_reset[m as int] {
                        (self, Err(BringUpError::OutOfOrder))
                    } else if self.clocks_stored[m as int] {
                        (self, Err(BringUpError::Repeated))
                    } else {
                        (
                            BringUpState {
                                clocks_stored: self.clocks_stored.update(m as int, true),
                                ..self
                            },
                            Ok(()),
                        )
                    }
                },
                PostInitStep::EnableInterrupts => {
                    if !self.all_done() {
                        (self, Err(BringUpError::OutOfOrder))
                    } else {
                        (BringUpState { live: true, ..self }, Ok(()))
                    }
                },
            }
        }
    }

    /// The steps are taken one after the other, up to the first that is
    /// refused.
    pub open spec fn run(self, steps: Seq<PostInitStep>) -> (Self, Result<(), BringUpError>)
        decreases steps.len(),
    {
        if steps.len() == 0 {
            (self, Ok(()))
        } else {
            let before = self.run(steps.drop_last());
            if before.1 is Err {
                before
            } else {
                before.0.apply(steps.last())
            }
        }
    }
}

/// The first `n` flags of `len`.
pub open spec fn leading(len: nat, n: int) -> Seq<bool> {
    Seq::new(len, |r: int| r < n)
}

/// Running one list of steps and then another is running the two in a row.
pub proof fn lemma_run_concat(s: BringUpState, a: Seq<PostInitStep>, b: Seq<PostInitStep>)
    ensures
        s.run(a + b) == if s.run(a).1 is Err {
            s.run(a)
        } else {
            s.run(a).0.run(b)
        },
    decreases b.len(),
{
    if b.len() == 0 {
        assert(a + b =~= a);
    } else {
        assert((a + b).drop_last() =~= a + b.drop_last());
        lemma_run_concat(s, a, b.drop_last());
    }
}

/// Once a step has been refused, the steps after it are not taken.
pub proof fn lemma_run_stops(s: BringUpState, steps: Seq<PostInitStep>, k: int)
    requires
        0 <= k <= steps.len(),
        s.run(steps.take(k)).1 is Err,
    ensures
        s.run(steps) == s.run(steps.take(k)),
    decreases steps.len() - k,
{
    if k < steps.len() {
        assert(steps.take(k + 1).drop_last() =~= steps.take(k));
        lemma_run_stops(s, steps, k + 1);
    } else {
        assert(steps.take(k) =~= steps);
    }
}

/// Writing the first `n` shared resources goes through and marks exactly
/// those as written.
proof fn lemma_shared_run(s: BringUpState, n: int)
    requires
        s.init_done && !s.live,
        0 <= n <= s.shared_written.len() <= usize::MAX,
        s.shared_written == leading(s.shared_written.len(), 0),
    ensures
        s.run(shared_steps(n)) == (
            BringUpState { shared_written: leading(s.shared_written.len(), n), ..s },
            Ok::<(), BringUpError>(()),
        ),
    decreases n,
{
    let len = s.shared_written.len();
    if n > 0 {
        lemma_shared_run(s, n - 1);
        assert(shared_steps(n).drop_last() =~= shared_steps(n - 1));
        assert(leading(len, n - 1).update(n - 1, true) =~= leading(len, n));
    } else {
        assert(s.shared_written =~= leading(len, 0));
    }
}

/// Writing the first `n` local resources goes through and marks exactly
/// those as written.
proof fn lemma_local_run(s: BringUpState, n: int)
    requires
        s.init_done && !s.live,
        0 <= n <= s.local_written.len() <= usize::MAX,
        s.local_written == leading(s.local_written.len(), 0),
    ensures
        s.run(local_steps(n)) == (
            BringUpState { local_written: leading(s.local_written.len(), n), ..s },
            Ok::<(), BringUpError>(()),
        ),
    decreases n,
{
    let len = s.local_written.len();
    if n > 0 {
        lemma_local_run(s, n - 1);
        assert(local_steps(n).drop_last() =~= local_steps(n - 1));
        assert(leading(len, n - 1).update(n - 1, true) =~= leading(len, n));
    } else {
        assert(s.local_written =~= leading(len, 0));
    }
}

/// Setting up the first `n` probes goes through and marks exactly those as
/// ready.
proof fn lemma_probe_run(s: BringUpState, n: int)
    requires
        s.init_done && !s.live,
        0 <= n <= s.probes_ready.len() <= usize::MAX,
        s.probes_ready == leading(s.probes_ready.len(), 0),
    ensures
        s.run(probe_steps(n)) == (
            BringUpState { probes_ready: leading(s.probes_ready.len(), n), ..s },
            Ok::<(), BringUpError>(()),
        ),
    decreases n,
{
    let len = s.probes_ready.len();
    if n > 0 {
        lemma_probe_run(s, n - 1);
        assert(probe_steps(n).drop_last() =~= probe_steps(n - 1));
        assert(leading(len, n - 1).update(n - 1, true) =~= leading(len, n));
    } else {
        assert(s.probes_ready =~= leading(len, 0));
    }
}

/// Resetting and storing the first `n` clocks goes through and marks
/// exactly those as reset and stored.
proof fn lemma_clock_run(s: BringUpState, n: int)
    requires
        s.init_done && !s.live,
        0 <= n <= s.clocks_reset.len() <= usize::MAX,
        s.clocks_stored.len() == s.clocks_reset.len(),
        s.clocks_reset == leading(s.clocks_reset.len(), 0),
        s.clocks_stored == leading(s.clocks_reset.len(), 0),
    ensures
        s.run(clock_steps(n)) == (
            BringUpState {
                clocks_reset: leading(s.clocks_reset.len(), n),
                clocks_stored: leading(s.clocks_reset.len(), n),
                ..s
            },
            Ok::<(), BringUpError>(()),
        ),
    decreases n,
{
    let len = s.clocks_reset.len();
    if n > 0 {
        lemma_clock_run(s, n - 1);
        let steps = clock_steps(n);
        let reset = clock_steps(n - 1).push(PostInitStep::ResetMonotonic((n - 1) as usize));
        assert(steps.drop_last() =~= reset);
        assert(reset.drop_last() =~= clock_steps(n - 1));
        assert(leading(len, n - 1).update(n - 1, true) =~= leading(len, n));
        let s1 = s.run(clock_steps(n - 1)).0;
        assert(s.run(reset) == s1.apply(PostInitStep::ResetMonotonic((n - 1) as usize)));
        let s2 = s.run(reset).0;
        assert(s2.clocks_reset == leading(len, n));
        assert(s.run(steps) == s2.apply(PostInitStep::StoreMonotonic((n - 1) as usize)));
    } else {
        assert(s.clocks_reset =~= leading(len, 0));
        assert(s.clocks_stored =~= leading(len, 0));
    }
}

/// How long each kind of step list is, and what stands where in it.
pub proof fn lemma_step_lists(n: int)
    requires
        0 <= n <= usize::MAX,
    ensures
        shared_steps(n).len() == n,
        local_steps(n).len() == n,
        probe_steps(n).len() == n,
        clock_steps(n).len() == 2 * n,
        forall|r: int| 0 <= r < n ==> #[trigger] shared_steps(n)[r] == PostInitStep::WriteShared(
            r as usize,
        ),
        forall|r: int| 0 <= r < n ==> #[trigger] local_steps(n)[r] == PostInitStep::WriteLocal(
            r as usize,
        ),
        forall|p: int| 0 <= p < n ==> #[trigger] probe_steps(n)[p] == PostInitStep::InitProbe(
            p as usize,
        ),
        forall|m: int|
            0 <= m < n ==> #[trigger] clock_steps(n)[2 * m] == PostInitStep::ResetMonotonic(
                m as usize,
            ),
        forall|m: int|
            0 <= m < n ==> #[trigger] clock_steps(n)[2 * m + 1] == PostInitStep::StoreMonotonic(
                m as usize,
            ),
    decreases n,
{
    if n > 0 {
        lemma_step_lists(n - 1);
        assert forall|m: int| 0 <= m < n implies #[trigger] clock_steps(n)[2 * m]
            == PostInitStep::ResetMonotonic(m as usize) by {
            if m < n - 1 {
                assert(clock_steps(n)[2 * m] == clock_steps(n - 1)[2 * m]);
            }
        }
        assert forall|m: int| 0 <= m < n implies #[trigger] clock_steps(n)[2 * m + 1]
            == PostInitStep::StoreMonotonic(m as usize) by {
            if m < n - 1 {
                assert(clock_steps(n)[2 * m + 1] == clock_steps(n - 1)[2 * m + 1]);
            }
        }
    }
}

/// Bring-up writes everything once and in order: the generated steps are,
/// one after the other, one write for each shared resource, one write for
/// each local resource, one set-up for each probe, for each clock in turn
/// its reset and right after it its store, and as the last step, and nowhere
/// else, the enabling of interrupts. Each step stands at one place, so none
/// is taken twice.
pub proof fn law_steps_write_everything_once(app: &App, k: int)
    requires
        0 <= k < post_init_steps(app).len(),
    ensures
        ({
            let steps = post_init_steps(app);
            let ns = app.shared_resources@.len() as int;
            let nl = app.local_resources@.len() as int;
            let np = app.probes@.len() as int;
            let nm = app.monotonics@.len() as int;
            let clocks = ns + nl + np;
            &&& steps.len() == clocks + 2 * nm + 1
            &&& k < ns ==> steps[k] == PostInitStep::WriteShared(k as usize)
            &&& ns <= k < ns + nl ==> steps[k] == PostInitStep::WriteLocal((k - ns) as usize)
            &&& ns + nl <= k < clocks ==> steps[k] == PostInitStep::InitProbe(
                (k - ns - nl) as usize,
            )
            &&& clocks <= k < clocks + 2 * nm && (k - clocks) % 2 == 0 ==> steps[k]
                == PostInitStep::ResetMonotonic(((k - clocks) / 2) as usize)
            &&& clocks <= k < clocks + 2 * nm && (k - clocks) % 2 == 1 ==> steps[k]
                == PostInitStep::StoreMonotonic(((k - clocks) / 2) as usize)
            &&& (k == clocks + 2 * nm) == (steps[k] == PostInitStep::EnableInterrupts)
        }),
{
    let ns = app.shared_resources@.len() as int;
    let nl = app.local_resources@.len() as int;
    let np = app.probes@.len() as int;
    let nm = app.monotonics@.len() as int;
    assert(ns == app.shared_resources.len() && nl == app.local_resources.len() && np
        == app.probes.len() && nm == app.monotonics.len());
    lemma_step_lists(ns);
    lemma_step_lists(nl);
    lemma_step_lists(np);
    lemma_step_lists(nm);
    let clocks = ns + nl + np;
    if clocks <= k < clocks + 2 * nm {
        let m = (k - clocks) / 2;
        if (k - clocks) % 2 == 0 {
            assert(clock_steps(nm)[2 * m] == PostInitStep::ResetMonotonic(m as usize));
        } else {
            assert(clock_steps(nm)[2 * m + 1] == PostInitStep::StoreMonotonic(m as usize));
        }
    }
}

/// Bring-up as generated is complete and in order: taken after the
/// initialisation routine has returned, the generated steps are all
/// accepted, so none writes twice or writes what the application does not
/// have, and they end with interrupts enabled and everything done before
/// that: every resource written, every probe set up, every clock reset and
/// stored.
pub proof fn law_generated_steps_go_live(app: &App)
    ensures
        ({
            let start = BringUpState::initial(app).init_returned();
            let end = start.0.run(post_init_steps(app));
            &&& start.1 is Ok
            &&& start.0.phase() == Phase::ResourcesConstructed || start.0.phase()
                == Phase::MonotonicsArmed
            &&& end.1 is Ok
            &&& end.0.phase() == Phase::Live
            &&& end.0.all_done()
            &&& end.0.wf()
        }),
{
    let s0 = BringUpState::initial(app).init_returned().0;
    let ns = app.shared_resources@.len();
    let nl = app.local_resources@.len();
    let np = app.probes@.len();
    let nm = app.monotonics@.len();
    assert(ns == app.shared_resources.len() && nl == app.local_resources.len() && np
        == app.probes.len() && nm == app.monotonics.len());
    let a = shared_steps(ns as int);
    let b = local_steps(nl as int);
    let c = probe_steps(np as int);
    let d = clock_steps(nm as int);
    let e = seq![PostInitStep::EnableInterrupts];
    assert(s0.shared_written =~= leading(ns, 0));
    assert(s0.local_written =~= leading(nl, 0));
    assert(s0.probes_ready =~= leading(np, 0));
    assert(s0.clocks_reset =~= leading(nm, 0));
    assert(s0.clocks_stored =~= leading(nm, 0));
    lemma_shared_run(s0, ns as int);
    let s1 = s0.run(a).0;
    lemma_local_run(s1, nl as int);
    let s2 = s1.run(b).0;
    lemma_probe_run(s2, np as int);
    let s3 = s2.run(c).0;
    lemma_clock_run(s3, nm as int);
    let s4 = s3.run(d).0;
    lemma_run_concat(s0, a, b);
    lemma_run_concat(s0, a + b, c);
    lemma_run_concat(s0, a + b + c, d);
    lemma_run_concat(s0, a + b + c + d, e);
    assert(s4.all_done());
    assert(e.drop_last() =~= Seq::<PostInitStep>::empty());
    assert(s4.run(e.drop_last()) == (s4, Ok::<(), BringUpError>(())));
    assert(e.last() == PostInitStep::EnableInterrupts);
    assert(s4.run(e) == s4.apply(PostInitStep::EnableInterrupts));
}

/// The sequencer that takes an application from reset to its first
/// interrupt.
pub struct BringUp {
    app: App,
    analysis: Analysis,
    init_done: bool,
    shared_written: Vec<bool>,
    local_written: Vec<bool>,
    probes_ready: Vec<bool>,
    clocks_reset: Vec<bool>,
    clocks_stored: Vec<bool>,
    live: bool,
}

impl View for BringUp {
    type V = BringUpState;

    closed spec fn view(&self) -> BringUpState {
        BringUpState {
            init_done: self.init_done,
            shared_written: self.shared_written@,
            local_written: self.local_written@,
            probes_ready: self.probes_ready@,
            clocks_reset: self.clocks_reset@,
            clocks_stored: self.clocks_stored@,
            live: self.live,
        }
    }
}

/// `n` flags, all false.
fn cleared_flags(n: usize) -> (flags: Vec<bool>)
    ensures
        flags@ == Seq::new(n as nat, |r: int| false),
{
    let mut flags: Vec<bool> = Vec::new();
    let mut k: usize = 0;
    while k < n
        invariant
            k <= n,
            flags@ =~= Seq::new(k as nat, |r: int| false),
        decreases n - k,
    {
        flags.push(false);
        k += 1;
    }
    flags
}

/// Whether every flag is set.
fn all_set(flags: &Vec<bool>) -> (b: bool)
    ensures
        b == forall|r: int| 0 <= r < flags@.len() ==> #[trigger] flags@[r],
{
    let mut k: usize = 0;
    while k < flags.len()
        invariant
            k <= flags@.len(),
            forall|r: int| 0 <= r < k ==> #[trigger] flags@[r],
        decreases flags@.len() - k,
    {
        if !flags[k] {
            return false;
        }
        k += 1;
    }
    true
}

impl BringUp {
    /// The application that is brought up.
    pub closed spec fn spec_app(&self) -> &App {
        &self.app
    }

    /// The analysis of the application that is brought up.
    pub closed spec fn spec_analysis(&self) -> &Analysis {
        &self.analysis
    }

    /// The sequencer is in a state that bring-up can be in.
    pub closed spec fn wf(&self) -> bool {
        &&& self.app.valid()
        &&& self.analysis.wf(&self.app)
        &&& self@.wf()
        &&& self.shared_written@.len() == self.app.shared_resources@.len()
        &&& self.local_written@.len() == self.app.local_resources@.len()
        &&& self.probes_ready@.len() == self.app.probes@.len()
        &&& self.clocks_reset@.len() == self.app.monotonics@.len()
    }

    /// Starts the bring-up of `app`. The description is checked first; one
    /// that cannot be built is refused with the first reason found.
    pub fn new(app: App) -> (r: Result<Self, BuildConfigurationError>)
        ensures
            match r {
                Ok(b) => app.valid() && b.wf() && *b.spec_app() == app && b@
                    == BringUpState::initial(&app),
                Err(e) => app.first_error() == Some(e),
            },
    {
        match check::app(&app) {
            Err(e) => Err(e),
            Ok(()) => {
                let analysis = analyze::app(&app);
                let shared_written = cleared_flags(app.shared_resources.len());
                let local_written = cleared_flags(app.local_resources.len());
                let probes_ready = cleared_flags(app.probes.len());
                let clocks_reset = cleared_flags(app.monotonics.len());
                let clocks_stored = cleared_flags(app.monotonics.len());
                Ok(
                    BringUp {
                        app,
                        analysis,
                        init_done: false,
                        shared_written,
                        local_written,
                        probes_ready,
                        clocks_reset,
                        clocks_stored,
                        live: false,
                    },
                )
            },
        }
    }

    /// The application that is brought up.
    pub fn app(&self) -> (app: &App)
        ensures
            app == self.spec_app(),
    {
        &self.app
    }

    /// The analysis of the application that is brought up.
    pub fn analysis(&self) -> (analysis: &Analysis)
        ensures
            analysis == self.spec_analysis(),
    {
        &self.analysis
    }

    /// Whether everything that is to happen before interrupts are enabled
    /// has happened.
    fn all_done(&self) -> (b: bool)
        ensures
            b == self@.all_done(),
    {
        let shared = all_set(&self.shared_written);
        let local = all_set(&self.local_written);
        let probes = all_set(&self.probes_ready);
        let clocks = all_set(&self.clocks_stored);
        proof {
            let v = self@;
            assert(v.shared_written == self.shared_written@);
            assert(v.local_written == self.local_written@);
            assert(v.probes_ready == self.probes_ready@);
            assert(v.clocks_stored == self.clocks_stored@);
            assert(shared == (forall|r: int|
                0 <= r < self.shared_written@.len() ==> #[trigger] self.shared_written@[r]));
            assert(local == (forall|r: int|
                0 <= r < self.local_written@.len() ==> #[trigger] self.local_written@[r]));
            assert(probes == (forall|p: int|
                0 <= p < self.probes_ready@.len() ==> #[trigger] self.probes_ready@[p]));
            assert(clocks == (forall|m: int|
                0 <= m < self.clocks_stored@.len() ==> #[trigger] self.clocks_stored@[m]));
        }
        shared && local && probes && clocks
    }

    /// The phase bring-up is in.
    pub fn phase(&self) -> (p: Phase)
        ensures
            p == self@.phase(),
    {
        if self.live {
            Phase::Live
        } else if !self.init_done {
            Phase::Uninitialized
        } else if self.all_done() {
            Phase::MonotonicsArmed
        } else {
            Phase::ResourcesConstructed
        }
    }

    /// Records that the initialisation routine has returned. Refused when
    /// it has returned before.
    pub fn init_returned(&mut self) -> (r: Result<(), BringUpError>)
        requires
            old(self).wf(),
        ensures
            final(self).wf(),
            final(self).spec_app() == old(self).spec_app(),
            final(self).spec_analysis() == old(self).spec_analysis(),
            final(self)@ == old(self)@.init_returned().0,
            r == old(self)@.init_returned().1,
    {
        if self.init_done || self.live {
            Err(BringUpError::OutOfOrder)
        } else {
            self.init_done = true;
            Ok(())
        }
    }

    /// Takes one step of bring-up, or refuses it and changes nothing.
    pub fn apply(&mut self, step: PostInitStep) -> (r: Result<(), BringUpError>)
        requires
            old(self).wf(),
        ensures
            final(self).wf(),
            final(self).spec_app() == old(self).spec_app(),
            final(self).spec_analysis() == old(self).spec_analysis(),
            final(self)@ == old(self)@.apply(step).0,
            r == old(self)@.apply(step).1,
    {
        if !self.init_done || self.live {
            return Err(BringUpError::OutOfOrder);
        }
        match step {
            PostInitStep::WriteShared(r) => {
                if !(r < self.shared_written.len()) {
                    Err(BringUpError::Unknown)
                } else if self.shared_written[r] {
                    Err(BringUpError::Repeated)
                } else {
                    self.shared_written[r] = true;
                    Ok(())
                }
            },
            PostInitStep::WriteLocal(r) => {
                if !(r < self.local_written.len()) {
                    Err(BringUpError::Unknown)
                } else if self.local_written[r] {
                    Err(BringUpError::Repeated)
                } else {
                    self.local_written[r] = true;
                    Ok(())
                }
            },
            PostInitStep::InitProbe(p) => {
                if !(p < self.probes_ready.len()) {
                    Err(BringUpError::Unknown)
                } else if self.probes_ready[p] {
                    Err(BringUpError::Repeated)
                } else {
                    self.probes_ready[p] = true;
                    Ok(())
                }
            },
            PostInitStep::ResetMonotonic(m) => {
                if !(m < self.clocks_reset.len()) {
                    Err(BringUpError::Unknown)
                } else if self.clocks_reset[m] {
                    Err(BringUpError::Repeated)
                } else {
                    self.clocks_reset[m] = true;
                    Ok(())
                }
            },
            PostInitStep::StoreMonotonic(m) => {
                if !(m < self.clocks_stored.len()) {
                    Err(BringUpError::Unknown)
                } else if !self.clocks_reset[m] {
                    Err(BringUpError::OutOfOrder)
                } else if self.clocks_stored[m] {
                    Err(BringUpError::Repeated)
                } else {
                    self.clocks_stored[m] = true;
                    Ok(())
                }
            },
            PostInitStep::EnableInterrupts => {
                if !self.all_done() {
                    Err(BringUpError::OutOfOrder)
                } else {
                    self.live = true;
                    Ok(())
                }
            },
        }
    }

    /// Takes the steps one after the other, up to the first that is
    /// refused, whose refusal is handed back.
    pub fn run(&mut self, steps: &Vec<PostInitStep>) -> (r: Result<(), BringUpError>)
        requires
            old(self).wf(),
        ensures
            final(self).wf(),
            final(self).spec_app() == old(self).spec_app(),
            final(self).spec_analysis() == old(self).spec_analysis(),
            final(self)@ == old(self)@.run(steps@).0,
            r == old(self)@.run(steps@).1,
    {
        let ghost before = self@;
        let mut k: usize = 0;
        while k < steps.len()
            invariant
                self.wf(),
                self.spec_app() == old(self).spec_app(),
                self.spec_analysis() == old(self).spec_analysis(),
                k <= steps@.len(),
                before == old(self)@,
                before.run(steps@.take(k as int)) == (self@, Ok::<(), BringUpError>(())),
            decreases steps@.len() - k,
        {
            assert(steps@.take(k + 1).drop_last() =~= steps@.take(k as int));
            assert(steps@.take(k + 1).last() == steps@[k as int]);
            let ghost here = self@;
            assert(before.run(steps@.take(k + 1)) == here.apply(steps@[k as int]));
            match self.apply(steps[k]) {
                Ok(()) => {},
                Err(e) => {
                    proof {
                        assert(self@ == here);
                        assert(before.run(steps@.take(k + 1)) == (here, Err::<(), BringUpError>(e)));
                        lemma_run_stops(before, steps@, k + 1);
                        assert(before.run(steps@) == (here, Err::<(), BringUpError>(e)));
                    }
                    return Err(e);
                },
            }
            k += 1;
        }
        assert(steps@.take(k as int) =~= steps@);
        Ok(())
    }

    /// Hands over the scheduler of the application once interrupts are
    /// enabled. The scheduler starts with every slot free, every queue and
    /// wait-list empty, nothing pending and only the idle context running.
    /// Before that there is no scheduler, and the sequencer comes back.
    pub fn start<T: Copy>(self) -> (r: Result<Scheduler<T>, BringUp>)
        requires
            self.wf(),
        ensures
            match r {
                Ok(s) => self@.phase() == Phase::Live && s.wf() && s.spec_app() == self.spec_app()
                    && s@ == State::<T>::initial(self.spec_app()),
                Err(b) => self@.phase() != Phase::Live && b == self,
            },
    {
        if self.live {
            Ok(Scheduler::build(self.app))
        } else {
            Err(self)
        }
    }
}

/// Brings `app` up from reset to its first interrupt: checks the
/// description, lets the initialisation routine return, takes the generated
/// steps and hands over the scheduler. The only failure is a description
/// that cannot be built.
pub fn bring_up<T: Copy>(app: App) -> (r: Result<Scheduler<T>, BuildConfigurationError>)
    ensures
        match r {
            Ok(s) => app.valid() && s.wf() && *s.spec_app() == app && s@ == State::<T>::initial(
                &app,
            ),
            Err(e) => app.first_error() == Some(e),
        },
{
    match BringUp::new(app) {
        Err(e) => Err(e),
        Ok(sequencer) => {
            let mut sequencer = sequencer;
            proof {
                law_generated_steps_go_live(sequencer.spec_app());
            }
            let returned = sequencer.init_returned();
            let steps = codegen(sequencer.app());
            let ran = sequencer.run(&steps);
            match sequencer.start() {
                Ok(scheduler) => Ok(scheduler),
                Err(_) => unreached(),
            }
        },
    }
}

} // verus!
