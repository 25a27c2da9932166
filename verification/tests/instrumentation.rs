use rtic_sched::analyze;
use rtic_sched::app::{App, HardwareTask, SharedResource, SoftwareTask};
use rtic_sched::hooks;
use rtic_sched::model::{Invocation, SpawnError, Step};
use rtic_sched::post_init::BringUp;
use rtic_sched::post_init;
use rtic_sched::scheduler::Scheduler;

fn description() -> App {
    App {
        device: "pac".to_string(),
        levels: 16,
        init: "init".to_string(),
        init_local_resources: vec![],
        idle_shared_resources: vec![],
        software_tasks: vec![
            SoftwareTask {
                name: "blink".to_string(),
                priority: 1,
                capacity: 1,
                arg_cnt: 1,
                shared_resources: vec![0],
                local_resources: vec![],
            },
            SoftwareTask {
                name: "log".to_string(),
                priority: 3,
                capacity: 2,
                arg_cnt: 2,
                shared_resources: vec![0],
                local_resources: vec![],
            },
        ],
        hardware_tasks: vec![HardwareTask {
            name: "uart".to_string(),
            binds: "UART0".to_string(),
            priority: 2,
            shared_resources: vec![],
            local_resources: vec![],
            is_extern: false,
        }],
        shared_resources: vec![SharedResource { name: "r".to_string(), lock_free: false }],
        local_resources: vec![],
        monotonics: vec![],
        dispatchers: vec!["SSI0".to_string(), "QEI0".to_string()],
        probes: vec![],
    }
}

#[test]
fn hooks_name_what_the_scheduler_did() {
    let mut sequencer = BringUp::new(description()).ok().unwrap();
    sequencer.init_returned().unwrap();
    let steps = post_init::codegen(sequencer.app());
    sequencer.run(&steps).unwrap();
    let app = description();
    let analysis = analyze::app(&app);
    let mut s: Scheduler<u32> = sequencer.start().ok().unwrap();

    let mut log: Vec<String> = vec![];
    let outcome = s.spawn(0, 5);
    log.push(hooks::spawned(&app, &analysis, "Interrupt", 0, outcome).unwrap().format);
    let outcome = s.spawn(0, 6);
    let failed = hooks::spawned(&app, &analysis, "Interrupt", 0, outcome).unwrap();
    assert_eq!(failed.args, vec!["pac::Interrupt::QEI0 as u32".to_string()]);
    log.push(failed.format);
    s.pend(0).unwrap();
    while let Some(step) = s.next() {
        match step {
            Step::Run(invocation) => {
                assert!(hooks::interrupt_entered(&app, &analysis, &step).is_none());
                log.push(hooks::entered(&app, &analysis, &invocation).unwrap().format);
                log.push(hooks::left().format);
                s.finish().unwrap();
            }
            Step::Exit { .. } => log.push(hooks::interrupt_left().format),
            _ => log.push(hooks::interrupt_entered(&app, &analysis, &step).unwrap().format),
        }
    }
    assert_eq!(
        log,
        vec![
            "AUXON_TASK_SPAWN::task=blink,interrupt={=u32},isr=QEI0,arg_cnt=1,queue_index={=u8}",
            "AUXON_TASK_SPAWN_FAILED::task=blink,interrupt={=u32},isr=QEI0,arg_cnt=1",
            "AUXON_INTERRUPT_ENTER::interrupt={=u32},priority=2,isr=UART0",
            "AUXON_TASK_ENTER::task=uart,priority=2,isr=UART0",
            "AUXON_TASK_EXIT",
            "AUXON_INTERRUPT_EXIT",
            "AUXON_INTERRUPT_ENTER::interrupt={=u32},priority=1,isr=QEI0",
            "AUXON_TASK_ENTER::task=blink,priority=1,dispatcher=QEI0,arg_cnt=1,queue_index={=u8}",
            "AUXON_TASK_EXIT",
            "AUXON_INTERRUPT_EXIT",
        ]
    );
}

#[test]
fn hooks_have_nothing_for_what_is_not_of_the_application() {
    let app = description();
    let analysis = analyze::app(&app);
    assert!(hooks::spawned(&app, &analysis, "Interrupt", 9, Err(SpawnError::UnknownTask)).is_none());
    assert!(hooks::spawned(&app, &analysis, "Interrupt", 0, Err(SpawnError::UnknownTask)).is_none());
    assert!(hooks::spawned(&app, &analysis, "Interrupt", 1, Ok(1)).is_some());
    let spawned = hooks::spawned(&app, &analysis, "Interrupt", 1, Ok(1)).unwrap();
    assert_eq!(
        spawned.format,
        "AUXON_TASK_SPAWN::task=log,interrupt={=u32},isr=SSI0,arg_cnt=2,queue_index={=u8}"
    );
    assert_eq!(spawned.args, vec!["pac::Interrupt::SSI0 as u32".to_string(), "index".to_string()]);
    let stray: Invocation<u32> = Invocation::Hardware { task: 4, priority: 1 };
    assert!(hooks::entered(&app, &analysis, &stray).is_none());
    let stray: Invocation<u32> = Invocation::Software { task: 4, index: 0, input: 0, priority: 1 };
    assert!(hooks::entered(&app, &analysis, &stray).is_none());
    let stray: Step<u32> = Step::EnterTrampoline { task: 4, priority: 1 };
    assert!(hooks::interrupt_entered(&app, &analysis, &stray).is_none());
    let stray: Step<u32> = Step::EnterDispatcher { priority: 2 };
    assert!(hooks::interrupt_entered(&app, &analysis, &stray).is_none());
    let entry: Step<u32> = Step::EnterDispatcher { priority: 3 };
    let point = hooks::interrupt_entered(&app, &analysis, &entry).unwrap();
    assert_eq!(point.format, "AUXON_INTERRUPT_ENTER::interrupt={=u32},priority=3,isr=SSI0");
    assert_eq!(point.args, vec!["pac::Interrupt::SSI0 as u32".to_string()]);
    assert_eq!(hooks::find_channel(&analysis, 3), Some(1));
    assert_eq!(hooks::find_channel(&analysis, 1), Some(0));
    assert_eq!(hooks::find_channel(&analysis, 2), None);
}

#[test]
fn an_accessor_preempts_while_the_resource_is_not_held() {
    // both tasks may access the resource; outside a critical section the
    // higher one still preempts the lower one
    let mut s: Scheduler<u32> = post_init::bring_up(description()).ok().unwrap();
    s.spawn(0, 1).unwrap();
    assert_eq!(s.next(), Some(Step::EnterDispatcher { priority: 1 }));
    assert!(matches!(s.next(), Some(Step::Run(Invocation::Software { task: 0, priority: 1, .. }))));
    s.spawn(1, 2).unwrap();
    assert_eq!(s.next(), Some(Step::EnterDispatcher { priority: 3 }));
    assert!(matches!(s.next(), Some(Step::Run(Invocation::Software { task: 1, priority: 3, .. }))));
    assert_eq!(s.lock(0), Ok(3));
    assert_eq!(s.unlock(), Ok(0));
    s.finish().unwrap();
    assert_eq!(s.next(), Some(Step::Exit { priority: 3 }));
    assert_eq!(s.lock(0), Ok(3));
    s.spawn(1, 3).unwrap();
    assert_eq!(s.next(), None);
}

#[test]
fn interleavings_beyond_capacity_keep_the_slots_conserved() {
    let app = App {
        software_tasks: vec![
            SoftwareTask {
                name: "a".to_string(),
                priority: 1,
                capacity: 3,
                arg_cnt: 1,
                shared_resources: vec![],
                local_resources: vec![],
            },
            SoftwareTask {
                name: "b".to_string(),
                priority: 2,
                capacity: 2,
                arg_cnt: 1,
                shared_resources: vec![],
                local_resources: vec![],
            },
            SoftwareTask {
                name: "c".to_string(),
                priority: 2,
                capacity: 1,
                arg_cnt: 1,
                shared_resources: vec![],
                local_resources: vec![],
            },
        ],
        hardware_tasks: vec![],
        shared_resources: vec![],
        monotonics: vec!["mono".to_string()],
        ..description()
    };
    let capacity = [3usize, 2, 1];
    let mut s: Scheduler<u32> = post_init::bring_up(app).ok().unwrap();
    let mut seed: u32 = 12345;
    let mut handles: Vec<u64> = vec![];
    let mut spawned = 0u32;
    let mut refused = 0u32;
    let mut started = 0u32;
    let mut now = 0u64;
    let mut depth = 0usize;
    for step in 0..4000u32 {
        seed = seed.wrapping_mul(1664525).wrapping_add(1013904223);
        let choice = (seed >> 16) % 8;
        let task = ((seed >> 8) % 3) as usize;
        match choice {
            0 | 1 | 2 => match s.spawn(task, step) {
                Ok(_) => spawned += 1,
                Err(e) => {
                    assert_eq!(e, SpawnError::CapacityExceeded);
                    assert_eq!(s.free_count(task), 0);
                    refused += 1;
                }
            },
            3 => {
                if let Ok(handle) = s.spawn_at(0, task, now + (seed % 7) as u64, step) {
                    handles.push(handle);
                    spawned += 1;
                }
            }
            4 => {
                if let Some(handle) = handles.pop() {
                    if s.cancel(0, handle).is_ok() {
                        spawned -= 1;
                    }
                }
            }
            5 => {
                now += 3;
                s.fire(0, now);
            }
            6 => {
                if let Some(Step::Run(invocation)) = s.next() {
                    assert!(matches!(invocation, Invocation::Software { .. }));
                    started += 1;
                    depth += 1;
                }
            }
            _ => {
                if depth > 0 {
                    s.finish().unwrap();
                    depth -= 1;
                }
            }
        }
        let mut waiting = 0u32;
        for t in 0..3 {
            let (free, ready, flying) = (s.free_count(t), s.ready_count(t), s.in_flight_count(t));
            assert_eq!(free + ready + flying, capacity[t]);
            waiting += (ready + flying) as u32;
        }
        assert_eq!(spawned, started + waiting);
    }
    assert!(refused > 0);
    assert!(started > 100);
}
