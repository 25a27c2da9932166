use rtic_sched::app::{App, BuildConfigurationError, HardwareTask, SharedResource, SoftwareTask};
use rtic_sched::model::{CancelError, ExitError, Invocation, LockError, SpawnError, Step};
use rtic_sched::post_init::bring_up;
use rtic_sched::scheduler::Scheduler;

fn soft(name: &str, priority: u8, capacity: u8, shared: Vec<usize>) -> SoftwareTask {
    SoftwareTask {
        name: name.to_string(),
        priority,
        capacity,
        arg_cnt: 1,
        shared_resources: shared,
        local_resources: vec![],
    }
}

fn hard(name: &str, binds: &str, priority: u8, shared: Vec<usize>) -> HardwareTask {
    HardwareTask {
        name: name.to_string(),
        binds: binds.to_string(),
        priority,
        shared_resources: shared,
        local_resources: vec![],
        is_extern: false,
    }
}

fn app(software: Vec<SoftwareTask>, hardware: Vec<HardwareTask>, shared: usize, clocks: usize) -> App {
    App {
        device: "pac".to_string(),
        levels: 16,
        init: "init".to_string(),
        init_local_resources: vec![],
        idle_shared_resources: vec![],
        software_tasks: software,
        hardware_tasks: hardware,
        shared_resources: (0..shared)
            .map(|r| SharedResource { name: format!("r{}", r), lock_free: false })
            .collect(),
        local_resources: vec![],
        monotonics: (0..clocks).map(|m| format!("mono{}", m)).collect(),
        dispatchers: vec!["SSI0".to_string(), "QEI0".to_string(), "GPIOA".to_string()],
        probes: vec![],
    }
}

fn boot(description: App) -> Scheduler<u32> {
    bring_up::<u32>(description).expect("the description is valid")
}

/// Takes steps until a task body is to run or nothing is left to do.
fn run(s: &mut Scheduler<u32>) -> Option<Invocation<u32>> {
    loop {
        match s.next() {
            Some(Step::Run(invocation)) => return Some(invocation),
            Some(_) => {}
            None => return None,
        }
    }
}

fn conserved(s: &Scheduler<u32>, task: usize, capacity: usize) {
    assert_eq!(s.free_count(task) + s.ready_count(task) + s.in_flight_count(task), capacity);
}

#[test]
fn scenario_higher_priority_first_then_spawn_order() {
    let mut s = boot(app(vec![soft("x", 1, 2, vec![]), soft("y", 2, 1, vec![])], vec![], 0, 0));
    assert_eq!(s.spawn(0, 10), Ok(0));
    assert_eq!(s.spawn(0, 11), Ok(1));
    assert_eq!(s.spawn(1, 20), Ok(0));
    assert_eq!(
        run(&mut s),
        Some(Invocation::Software { task: 1, index: 0, input: 20, priority: 2 })
    );
    assert_eq!(s.finish(), Ok(()));
    assert_eq!(
        run(&mut s),
        Some(Invocation::Software { task: 0, index: 0, input: 10, priority: 1 })
    );
    assert_eq!(s.finish(), Ok(()));
    assert_eq!(
        run(&mut s),
        Some(Invocation::Software { task: 0, index: 1, input: 11, priority: 1 })
    );
    assert_eq!(s.finish(), Ok(()));
    assert_eq!(run(&mut s), None);
}

#[test]
fn scenario_second_spawn_exceeds_capacity() {
    let mut s = boot(app(vec![soft("z", 1, 1, vec![])], vec![], 0, 0));
    assert_eq!(s.spawn(0, 1), Ok(0));
    assert_eq!(s.spawn(0, 2), Err(SpawnError::CapacityExceeded));
    assert_eq!(s.ready_count(0), 1);
    assert_eq!(s.free_count(0), 0);
    assert_eq!(
        run(&mut s),
        Some(Invocation::Software { task: 0, index: 0, input: 1, priority: 1 })
    );
    assert_eq!(s.finish(), Ok(()));
    assert_eq!(run(&mut s), None);
}

#[test]
fn scenario_spawn_pends_while_ceiling_is_raised() {
    let mut s = boot(app(
        vec![soft("low", 1, 1, vec![0]), soft("mid", 2, 1, vec![]), soft("high", 3, 1, vec![0])],
        vec![],
        1,
        0,
    ));
    assert_eq!(s.ceiling(0), Some(3));
    assert_eq!(s.spawn(0, 1), Ok(0));
    assert!(matches!(run(&mut s), Some(Invocation::Software { task: 0, priority: 1, .. })));
    assert_eq!(s.current_priority(), 1);
    assert_eq!(s.lock(0), Ok(3));
    assert_eq!(s.current_priority(), 3);
    assert_eq!(s.spawn(1, 7), Ok(0));
    assert_eq!(s.ready_count(1), 1);
    assert_eq!(run(&mut s), None);
    assert_eq!(s.unlock(), Ok(0));
    assert_eq!(s.current_priority(), 1);
    assert_eq!(
        run(&mut s),
        Some(Invocation::Software { task: 1, index: 0, input: 7, priority: 2 })
    );
    assert_eq!(s.current_priority(), 2);
    assert_eq!(s.finish(), Ok(()));
    assert_eq!(run(&mut s), None);
    assert_eq!(s.current_priority(), 1);
    assert_eq!(s.finish(), Ok(()));
    assert_eq!(run(&mut s), None);
    assert_eq!(s.current_priority(), 0);
}

#[test]
fn slots_are_conserved_across_spawn_dispatch_and_timers() {
    let mut s = boot(app(vec![soft("a", 1, 3, vec![])], vec![], 0, 1));
    conserved(&s, 0, 3);
    assert_eq!(s.free_count(0), 3);
    s.spawn(0, 1).unwrap();
    conserved(&s, 0, 3);
    let handle = s.spawn_at(0, 0, 100, 2).unwrap();
    conserved(&s, 0, 3);
    assert_eq!((s.free_count(0), s.ready_count(0), s.in_flight_count(0)), (1, 1, 1));
    s.spawn(0, 3).unwrap();
    assert_eq!((s.free_count(0), s.ready_count(0), s.in_flight_count(0)), (0, 2, 1));
    assert_eq!(s.spawn(0, 4), Err(SpawnError::CapacityExceeded));
    conserved(&s, 0, 3);
    assert!(run(&mut s).is_some());
    conserved(&s, 0, 3);
    assert_eq!((s.free_count(0), s.ready_count(0), s.in_flight_count(0)), (1, 1, 1));
    assert_eq!(s.cancel(0, handle), Ok(2));
    assert_eq!((s.free_count(0), s.ready_count(0), s.in_flight_count(0)), (2, 1, 0));
    conserved(&s, 0, 3);
}

#[test]
fn spawn_beyond_capacity_changes_nothing() {
    let mut s = boot(app(vec![soft("a", 1, 2, vec![])], vec![], 0, 0));
    for k in 0..5u32 {
        let outcome = s.spawn(0, k);
        if k < 2 {
            assert_eq!(outcome, Ok(k as u8));
        } else {
            assert_eq!(outcome, Err(SpawnError::CapacityExceeded));
        }
        conserved(&s, 0, 2);
    }
    assert_eq!(s.ready_count(0), 2);
    assert!(matches!(run(&mut s), Some(Invocation::Software { input: 0, .. })));
    s.finish().unwrap();
    assert!(matches!(run(&mut s), Some(Invocation::Software { input: 1, .. })));
    s.finish().unwrap();
    assert_eq!(run(&mut s), None);
}

#[test]
fn same_level_tasks_are_dispatched_first_in_first_out() {
    let mut s = boot(app(vec![soft("a", 1, 2, vec![]), soft("b", 1, 2, vec![])], vec![], 0, 0));
    s.spawn(1, 100).unwrap();
    s.spawn(0, 200).unwrap();
    s.spawn(1, 300).unwrap();
    s.spawn(0, 400).unwrap();
    let mut order = vec![];
    while let Some(Invocation::Software { task, input, .. }) = run(&mut s) {
        order.push((task, input));
        s.finish().unwrap();
    }
    assert_eq!(order, vec![(1, 100), (0, 200), (1, 300), (0, 400)]);
}

#[test]
fn freed_slot_is_reused_in_the_order_it_was_freed() {
    let mut s = boot(app(vec![soft("a", 1, 2, vec![])], vec![], 0, 0));
    assert_eq!(s.spawn(0, 1), Ok(0));
    assert_eq!(s.spawn(0, 2), Ok(1));
    assert!(run(&mut s).is_some());
    // the slot is free again as soon as the task has started
    assert_eq!(s.spawn(0, 3), Ok(0));
    s.finish().unwrap();
    assert!(matches!(run(&mut s), Some(Invocation::Software { index: 1, input: 2, .. })));
    s.finish().unwrap();
    assert!(matches!(run(&mut s), Some(Invocation::Software { index: 0, input: 3, .. })));
}

#[test]
fn equal_or_lower_priority_never_preempts() {
    let mut s = boot(app(vec![soft("a", 2, 2, vec![]), soft("b", 1, 1, vec![])], vec![], 0, 0));
    s.spawn(0, 1).unwrap();
    assert!(matches!(run(&mut s), Some(Invocation::Software { task: 0, priority: 2, .. })));
    s.spawn(0, 2).unwrap();
    s.spawn(1, 3).unwrap();
    assert_eq!(run(&mut s), None);
    s.finish().unwrap();
    assert!(matches!(run(&mut s), Some(Invocation::Software { task: 0, input: 2, .. })));
    s.finish().unwrap();
    assert!(matches!(run(&mut s), Some(Invocation::Software { task: 1, input: 3, .. })));
}

#[test]
fn higher_priority_preempts_and_lower_resumes() {
    let mut s = boot(app(vec![soft("a", 1, 1, vec![]), soft("b", 5, 1, vec![])], vec![], 0, 0));
    s.spawn(0, 1).unwrap();
    assert!(matches!(run(&mut s), Some(Invocation::Software { task: 0, .. })));
    s.spawn(1, 2).unwrap();
    assert_eq!(
        run(&mut s),
        Some(Invocation::Software { task: 1, index: 0, input: 2, priority: 5 })
    );
    assert_eq!(s.current_priority(), 5);
    s.finish().unwrap();
    assert_eq!(s.next(), Some(Step::Exit { priority: 5 }));
    assert_eq!(s.current_priority(), 1);
    assert_eq!(s.next(), None);
    s.finish().unwrap();
    assert_eq!(s.next(), Some(Step::Exit { priority: 1 }));
    assert_eq!(s.current_priority(), 0);
    assert_eq!(s.next(), None);
}

#[test]
fn accessor_cannot_start_while_resource_is_held() {
    let mut s = boot(app(
        vec![soft("low", 1, 1, vec![0]), soft("high", 3, 1, vec![0]), soft("top", 4, 1, vec![])],
        vec![],
        1,
        0,
    ));
    s.spawn(0, 1).unwrap();
    run(&mut s).unwrap();
    s.lock(0).unwrap();
    assert!(s.is_locked(0));
    s.spawn(1, 2).unwrap();
    assert_eq!(run(&mut s), None);
    // a task above the ceiling that does not share the resource may run
    s.spawn(2, 3).unwrap();
    assert!(matches!(run(&mut s), Some(Invocation::Software { task: 2, priority: 4, .. })));
    assert_eq!(s.lock(0), Err(LockError::NotAccessible));
    s.finish().unwrap();
    // between two tasks a handler holds nothing and may lock nothing
    assert_eq!(s.unlock(), Err(LockError::NothingHeld));
    assert_eq!(s.lock(0), Err(LockError::NotAccessible));
    assert_eq!(s.finish(), Err(ExitError::NothingRunning));
    assert_eq!(run(&mut s), None);
    s.unlock().unwrap();
    assert!(!s.is_locked(0));
    assert!(matches!(run(&mut s), Some(Invocation::Software { task: 1, priority: 3, .. })));
}

#[test]
fn context_carries_priority_and_declared_resources() {
    let mut s = boot(app(
        vec![soft("low", 1, 1, vec![0, 1])],
        vec![hard("uart", "UART0", 4, vec![1])],
        2,
        0,
    ));
    s.spawn(0, 1).unwrap();
    let invocation = run(&mut s).unwrap();
    let context = s.context(&invocation).unwrap();
    assert_eq!(context.priority, 1);
    assert_eq!(context.priority, s.current_priority());
    assert_eq!(context.shared_resources, &vec![0, 1]);
    assert!(context.local_resources.is_empty());
    for r in context.shared_resources.clone() {
        assert!(s.lock(r).is_ok());
    }
    s.pend(0).unwrap();
    assert_eq!(run(&mut s), None);
    s.unlock().unwrap();
    s.unlock().unwrap();
    let invocation = run(&mut s).unwrap();
    let context = s.context(&invocation).unwrap();
    assert_eq!(context.priority, 4);
    assert_eq!(context.shared_resources, &vec![1]);
    let stray = Invocation::Hardware { task: 3, priority: 1 };
    assert!(s.context(&stray).is_none());
    let stray = Invocation::Software { task: 3, index: 0, input: 0, priority: 1 };
    assert!(s.context(&stray).is_none());
}

#[test]
fn lock_at_or_above_ceiling_keeps_priority() {
    let mut s = boot(app(vec![soft("low", 1, 1, vec![0]), soft("high", 3, 1, vec![0])], vec![], 1, 0));
    s.spawn(1, 1).unwrap();
    run(&mut s).unwrap();
    assert_eq!(s.lock(0), Ok(3));
    assert_eq!(s.current_priority(), 3);
    assert_eq!(s.unlock(), Ok(0));
    assert_eq!(s.current_priority(), 3);
}

#[test]
fn nested_locks_compose_and_release_in_reverse() {
    let mut s = boot(app(
        vec![soft("a", 1, 1, vec![0, 1]), soft("b", 4, 1, vec![0]), soft("c", 2, 1, vec![1])],
        vec![],
        2,
        0,
    ));
    assert_eq!(s.ceiling(0), Some(4));
    assert_eq!(s.ceiling(1), Some(2));
    s.spawn(0, 0).unwrap();
    run(&mut s).unwrap();
    assert_eq!(s.lock(0), Ok(4));
    assert_eq!(s.lock(1), Ok(4));
    assert_eq!(s.current_priority(), 4);
    assert_eq!(s.unlock(), Ok(1));
    assert_eq!(s.current_priority(), 4);
    assert_eq!(s.unlock(), Ok(0));
    assert_eq!(s.current_priority(), 1);
    assert_eq!(s.lock(1), Ok(2));
    assert_eq!(s.lock(0), Ok(4));
    assert_eq!(s.unlock(), Ok(0));
    assert_eq!(s.current_priority(), 2);
}

#[test]
fn lock_errors() {
    let mut s = boot(app(vec![soft("a", 1, 1, vec![0]), soft("b", 2, 1, vec![])], vec![], 2, 0));
    assert_eq!(s.lock(7), Err(LockError::UnknownResource));
    assert_eq!(s.lock(0), Err(LockError::NotAccessible));
    assert_eq!(s.unlock(), Err(LockError::NothingHeld));
    s.spawn(0, 0).unwrap();
    run(&mut s).unwrap();
    assert_eq!(s.unlock(), Err(LockError::NothingHeld));
    assert_eq!(s.lock(1), Err(LockError::NotAccessible));
    assert_eq!(s.lock(0), Ok(1));
    assert_eq!(s.lock(0), Err(LockError::AlreadyHeld));
    assert_eq!(s.ceiling(2), None);
}

#[test]
fn idle_context_locks_its_resources() {
    let mut description = app(vec![soft("a", 2, 1, vec![0])], vec![], 1, 0);
    description.idle_shared_resources = vec![0];
    let mut s = boot(description);
    assert_eq!(s.lock(0), Ok(2));
    s.spawn(0, 5).unwrap();
    assert_eq!(run(&mut s), None);
    assert_eq!(s.unlock(), Ok(0));
    assert!(run(&mut s).is_some());
}

#[test]
fn exit_errors() {
    let mut s = boot(app(vec![soft("a", 1, 1, vec![0])], vec![], 1, 0));
    assert_eq!(s.finish(), Err(ExitError::NothingRunning));
    s.spawn(0, 0).unwrap();
    run(&mut s).unwrap();
    s.lock(0).unwrap();
    assert_eq!(s.finish(), Err(ExitError::ResourceHeld));
    s.unlock().unwrap();
    assert_eq!(s.finish(), Ok(()));
}

#[test]
fn spawn_errors() {
    let mut s = boot(app(vec![soft("a", 1, 1, vec![])], vec![], 0, 1));
    assert_eq!(s.spawn(3, 0), Err(SpawnError::UnknownTask));
    assert_eq!(s.spawn_at(0, 3, 10, 0), Err(SpawnError::UnknownTask));
    assert_eq!(s.spawn_at(4, 0, 10, 0), Err(SpawnError::UnknownClock));
    assert_eq!(s.pend(0), Err(SpawnError::UnknownTask));
    assert_eq!(s.spawn(0, 0), Ok(0));
    assert_eq!(s.spawn_at(0, 0, 10, 0), Err(SpawnError::CapacityExceeded));
}

#[test]
fn hardware_task_runs_once_per_pended_interrupt() {
    let mut s = boot(app(
        vec![soft("a", 2, 1, vec![])],
        vec![hard("uart", "UART0", 2, vec![]), hard("tick", "SysTick", 3, vec![])],
        0,
        0,
    ));
    assert_eq!(s.pend(0), Ok(()));
    assert_eq!(s.pend(0), Ok(()));
    assert!(s.is_pending(0));
    s.spawn(0, 9).unwrap();
    assert_eq!(s.pend(1), Ok(()));
    assert_eq!(s.next(), Some(Step::EnterTrampoline { task: 1, priority: 3 }));
    assert!(!s.is_pending(1));
    assert_eq!(s.current_priority(), 3);
    assert_eq!(s.next(), Some(Step::Run(Invocation::Hardware { task: 1, priority: 3 })));
    assert_eq!(s.next(), None);
    s.finish().unwrap();
    assert_eq!(s.next(), Some(Step::Exit { priority: 3 }));
    assert_eq!(s.current_priority(), 0);
    // at one priority the bound interrupt is taken ahead of the dispatcher
    assert_eq!(s.next(), Some(Step::EnterTrampoline { task: 0, priority: 2 }));
    assert!(!s.is_pending(0));
    assert_eq!(s.next(), Some(Step::Run(Invocation::Hardware { task: 0, priority: 2 })));
    s.finish().unwrap();
    assert_eq!(s.next(), Some(Step::Exit { priority: 2 }));
    assert_eq!(s.next(), Some(Step::EnterDispatcher { priority: 2 }));
    assert_eq!(
        s.next(),
        Some(Step::Run(Invocation::Software { task: 0, index: 0, input: 9, priority: 2 }))
    );
    s.finish().unwrap();
    assert_eq!(s.next(), Some(Step::Exit { priority: 2 }));
    assert_eq!(s.next(), None);
}

#[test]
fn dispatcher_drains_its_level_in_one_run() {
    let mut s = boot(app(
        vec![soft("a", 2, 2, vec![]), soft("b", 1, 1, vec![])],
        vec![hard("uart", "UART0", 2, vec![])],
        0,
        0,
    ));
    s.spawn(0, 1).unwrap();
    s.spawn(1, 3).unwrap();
    assert_eq!(s.next(), Some(Step::EnterDispatcher { priority: 2 }));
    assert_eq!(
        s.next(),
        Some(Step::Run(Invocation::Software { task: 0, index: 0, input: 1, priority: 2 }))
    );
    // what is queued or pended at the level while its dispatcher runs
    s.spawn(0, 2).unwrap();
    s.pend(0).unwrap();
    s.finish().unwrap();
    assert_eq!(s.current_priority(), 2);
    assert_eq!(
        s.next(),
        Some(Step::Run(Invocation::Software { task: 0, index: 1, input: 2, priority: 2 }))
    );
    s.finish().unwrap();
    assert_eq!(s.next(), Some(Step::Exit { priority: 2 }));
    assert_eq!(s.next(), Some(Step::EnterTrampoline { task: 0, priority: 2 }));
    assert_eq!(s.next(), Some(Step::Run(Invocation::Hardware { task: 0, priority: 2 })));
    s.finish().unwrap();
    assert_eq!(s.next(), Some(Step::Exit { priority: 2 }));
    assert_eq!(s.next(), Some(Step::EnterDispatcher { priority: 1 }));
    assert_eq!(
        s.next(),
        Some(Step::Run(Invocation::Software { task: 1, index: 0, input: 3, priority: 1 }))
    );
    s.finish().unwrap();
    assert_eq!(s.next(), Some(Step::Exit { priority: 1 }));
    assert_eq!(s.next(), None);
    assert_eq!(s.current_priority(), 0);
}

#[test]
fn handler_is_preempted_between_its_tasks() {
    let mut s = boot(app(vec![soft("a", 1, 2, vec![]), soft("b", 3, 1, vec![])], vec![], 0, 0));
    s.spawn(0, 1).unwrap();
    s.spawn(0, 2).unwrap();
    assert_eq!(s.next(), Some(Step::EnterDispatcher { priority: 1 }));
    assert!(matches!(s.next(), Some(Step::Run(Invocation::Software { input: 1, .. }))));
    s.finish().unwrap();
    s.spawn(1, 9).unwrap();
    assert_eq!(s.next(), Some(Step::EnterDispatcher { priority: 3 }));
    assert!(matches!(s.next(), Some(Step::Run(Invocation::Software { input: 9, priority: 3, .. }))));
    s.finish().unwrap();
    assert_eq!(s.next(), Some(Step::Exit { priority: 3 }));
    assert!(matches!(s.next(), Some(Step::Run(Invocation::Software { input: 2, priority: 1, .. }))));
    s.finish().unwrap();
    assert_eq!(s.next(), Some(Step::Exit { priority: 1 }));
    assert_eq!(s.next(), None);
}

#[test]
fn colliding_deadlines_fire_in_insertion_order() {
    let mut s = boot(app(vec![soft("a", 1, 4, vec![])], vec![], 0, 1));
    assert_eq!(s.next_deadline(0), None);
    let h1 = s.spawn_at(0, 0, 50, 1).unwrap();
    let h2 = s.spawn_at(0, 0, 20, 2).unwrap();
    let h3 = s.spawn_at(0, 0, 50, 3).unwrap();
    let h4 = s.spawn_after(0, 0, 5, 15, 4).unwrap();
    assert_eq!((h1, h2, h3, h4), (0, 1, 2, 3));
    assert_eq!(s.next_deadline(0), Some(20));
    assert_eq!(s.fire(0, 19), 0);
    assert_eq!(s.fire(0, 50), 4);
    assert_eq!(s.next_deadline(0), None);
    let mut order = vec![];
    while let Some(Invocation::Software { input, .. }) = run(&mut s) {
        order.push(input);
        s.finish().unwrap();
    }
    assert_eq!(order, vec![2, 4, 1, 3]);
}

#[test]
fn fire_takes_only_what_is_due_and_rearms() {
    let mut s = boot(app(vec![soft("a", 1, 3, vec![])], vec![], 0, 2));
    s.spawn_at(0, 0, 10, 1).unwrap();
    s.spawn_at(0, 0, 30, 2).unwrap();
    s.spawn_at(1, 0, 5, 3).unwrap();
    assert_eq!(s.fire(0, 10), 1);
    assert_eq!(s.next_deadline(0), Some(30));
    assert_eq!(s.next_deadline(1), Some(5));
    assert_eq!(s.ready_count(0), 1);
    assert_eq!(s.in_flight_count(0), 2);
    assert_eq!(s.fire(7, 100), 0);
    assert_eq!(s.next_deadline(7), None);
}

#[test]
fn cancel_prevents_spawn_and_fails_once_fired() {
    let mut s = boot(app(vec![soft("a", 1, 2, vec![])], vec![], 0, 1));
    let kept = s.spawn_at(0, 0, 10, 1).unwrap();
    let dropped = s.spawn_at(0, 0, 10, 2).unwrap();
    assert_eq!(s.cancel(0, dropped), Ok(2));
    assert_eq!(s.cancel(0, dropped), Err(CancelError::NotPending));
    assert_eq!(s.cancel(3, kept), Err(CancelError::UnknownClock));
    assert_eq!(s.fire(0, 10), 1);
    assert_eq!(s.cancel(0, kept), Err(CancelError::NotPending));
    assert!(matches!(run(&mut s), Some(Invocation::Software { input: 1, .. })));
    s.finish().unwrap();
    assert_eq!(run(&mut s), None);
    assert_eq!(s.free_count(0), 2);
}

#[test]
fn spawn_after_saturates_at_the_last_instant() {
    let mut s = boot(app(vec![soft("a", 1, 1, vec![])], vec![], 0, 1));
    assert!(s.handles_left());
    s.spawn_after(0, 0, u64::MAX - 1, 5, 1).unwrap();
    assert_eq!(s.next_deadline(0), Some(u64::MAX));
}

#[test]
fn invalid_descriptions_are_refused() {
    let mut unknown = app(vec![soft("a", 1, 1, vec![2])], vec![], 1, 0);
    assert_eq!(
        bring_up::<u32>(unknown.clone_description()).err(),
        Some(BuildConfigurationError::UnknownResource)
    );
    unknown.software_tasks[0].shared_resources = vec![0];
    assert!(bring_up::<u32>(unknown).is_ok());

    let zero = app(vec![soft("a", 0, 1, vec![])], vec![], 0, 0);
    assert_eq!(bring_up::<u32>(zero).err(), Some(BuildConfigurationError::UnschedulablePriority));
    let beyond = app(vec![], vec![hard("a", "UART0", 17, vec![])], 0, 0);
    assert_eq!(bring_up::<u32>(beyond).err(), Some(BuildConfigurationError::UnschedulablePriority));
    let edge = app(vec![soft("a", 16, 1, vec![])], vec![], 0, 0);
    assert!(bring_up::<u32>(edge).is_ok());

    let mut crowded = app(
        vec![soft("a", 1, 1, vec![]), soft("b", 2, 1, vec![]), soft("c", 3, 1, vec![])],
        vec![],
        0,
        0,
    );
    crowded.dispatchers = vec!["SSI0".to_string(), "QEI0".to_string()];
    assert_eq!(bring_up::<u32>(crowded).err(), Some(BuildConfigurationError::UnschedulablePriority));

    let full = app(vec![soft("a", 1, 200, vec![]), soft("b", 1, 56, vec![])], vec![], 0, 0);
    assert_eq!(bring_up::<u32>(full).err(), Some(BuildConfigurationError::CapacityOverflow));
    let fits = app(vec![soft("a", 1, 200, vec![]), soft("b", 1, 55, vec![])], vec![], 0, 0);
    assert!(bring_up::<u32>(fits).is_ok());

    let twice = app(vec![], vec![hard("a", "UART0", 1, vec![]), hard("b", "UART0", 2, vec![])], 0, 0);
    assert_eq!(bring_up::<u32>(twice).err(), Some(BuildConfigurationError::DuplicateBinding));
    let taken = app(vec![], vec![hard("a", "SSI0", 1, vec![])], 0, 0);
    assert_eq!(bring_up::<u32>(taken).err(), Some(BuildConfigurationError::DuplicateBinding));

    let mut racy = app(vec![soft("a", 1, 1, vec![0]), soft("b", 2, 1, vec![0])], vec![], 1, 0);
    racy.shared_resources[0].lock_free = true;
    assert_eq!(bring_up::<u32>(racy).err(), Some(BuildConfigurationError::ConflictingCeilings));
    let mut calm = app(vec![soft("a", 2, 1, vec![0]), soft("b", 2, 1, vec![0])], vec![], 1, 0);
    calm.shared_resources[0].lock_free = true;
    assert!(bring_up::<u32>(calm).is_ok());
}

trait CloneDescription {
    fn clone_description(&self) -> App;
}

impl CloneDescription for App {
    fn clone_description(&self) -> App {
        App {
            device: self.device.clone(),
            levels: self.levels,
            init: self.init.clone(),
            init_local_resources: self.init_local_resources.clone(),
            idle_shared_resources: self.idle_shared_resources.clone(),
            software_tasks: self
                .software_tasks
                .iter()
                .map(|t| soft(&t.name, t.priority, t.capacity, t.shared_resources.clone()))
                .collect(),
            hardware_tasks: vec![],
            shared_resources: self
                .shared_resources
                .iter()
                .map(|r| SharedResource { name: r.name.clone(), lock_free: r.lock_free })
                .collect(),
            local_resources: self.local_resources.clone(),
            monotonics: self.monotonics.clone(),
            dispatchers: self.dispatchers.clone(),
            probes: vec![],
        }
    }
}
