use rtic_sched::analyze;
use rtic_sched::app::{App, BuildConfigurationError, HardwareTask, ProbeDecl, SharedResource, SoftwareTask};
use rtic_sched::check;
use rtic_sched::dispatchers;
use rtic_sched::hardware_tasks;
use rtic_sched::init;
use rtic_sched::post_init::{self, BringUp, BringUpError, Phase, PostInitStep};
use rtic_sched::queue::BoundedQueue;
use rtic_sched::scheduler::Scheduler;

fn soft(name: &str, priority: u8, capacity: u8, args: u8, shared: Vec<usize>, local: Vec<usize>) -> SoftwareTask {
    SoftwareTask {
        name: name.to_string(),
        priority,
        capacity,
        arg_cnt: args,
        shared_resources: shared,
        local_resources: local,
    }
}

fn sample() -> App {
    App {
        device: "pac".to_string(),
        levels: 16,
        init: "init".to_string(),
        init_local_resources: vec![2],
        idle_shared_resources: vec![1],
        software_tasks: vec![
            soft("blink", 1, 2, 1, vec![0], vec![0]),
            soft("log", 3, 1, 0, vec![0], vec![]),
            soft("beep", 1, 3, 2, vec![], vec![]),
        ],
        hardware_tasks: vec![
            HardwareTask {
                name: "uart".to_string(),
                binds: "UART0".to_string(),
                priority: 2,
                shared_resources: vec![1],
                local_resources: vec![],
                is_extern: false,
            },
            HardwareTask {
                name: "tick".to_string(),
                binds: "SysTick".to_string(),
                priority: 4,
                shared_resources: vec![],
                local_resources: vec![1],
                is_extern: true,
            },
        ],
        shared_resources: vec![
            SharedResource { name: "counter".to_string(), lock_free: false },
            SharedResource { name: "buffer".to_string(), lock_free: false },
            SharedResource { name: "unused".to_string(), lock_free: false },
        ],
        local_resources: vec!["led".to_string(), "timer".to_string(), "setup".to_string(), "spare".to_string()],
        monotonics: vec!["Mono".to_string(), "Rtc".to_string()],
        dispatchers: vec!["SSI0".to_string(), "QEI0".to_string(), "GPIOA".to_string()],
        probes: vec![ProbeDecl {
            task: "blink".to_string(),
            name: "probe_blink".to_string(),
            description: None,
            storage_name: "probe_blink_storage".to_string(),
            local_name: "probe_blink".to_string(),
        }],
    }
}

#[test]
fn queue_is_bounded_and_first_in_first_out() {
    let mut q: BoundedQueue<u8> = BoundedQueue::new(2);
    assert_eq!(q.capacity(), 2);
    assert!(q.is_empty());
    assert!(!q.is_full());
    assert_eq!(q.dequeue(), None);
    assert_eq!(q.enqueue(7), Ok(()));
    assert_eq!(q.enqueue(8), Ok(()));
    assert!(q.is_full());
    assert_eq!(q.len(), 2);
    assert_eq!(q.enqueue(9), Err(9));
    assert_eq!(q.len(), 2);
    assert_eq!(*q.get(0), 7);
    assert_eq!(*q.get(1), 8);
    assert_eq!(q.dequeue(), Some(7));
    assert_eq!(q.enqueue(9), Ok(()));
    assert_eq!(q.dequeue(), Some(8));
    assert_eq!(q.dequeue(), Some(9));
    assert_eq!(q.dequeue(), None);
    let mut none: BoundedQueue<u8> = BoundedQueue::new(0);
    assert!(none.is_full());
    assert_eq!(none.enqueue(1), Err(1));
}

#[test]
fn check_accepts_the_sample() {
    assert_eq!(check::app(&sample()), Ok(()));
}

#[test]
fn check_reports_the_first_failure() {
    let mut app = sample();
    app.hardware_tasks[0].shared_resources = vec![3];
    app.software_tasks[0].priority = 0;
    assert_eq!(check::app(&app), Err(BuildConfigurationError::UnknownResource));
    app.hardware_tasks[0].shared_resources = vec![];
    assert_eq!(check::app(&app), Err(BuildConfigurationError::UnschedulablePriority));
    app.software_tasks[0].priority = 1;
    app.hardware_tasks[1].priority = 0;
    assert_eq!(check::app(&app), Err(BuildConfigurationError::UnschedulablePriority));
    app.hardware_tasks[1].priority = 4;
    app.idle_shared_resources = vec![9];
    assert_eq!(check::app(&app), Err(BuildConfigurationError::UnknownResource));
    app.idle_shared_resources = vec![];
    app.dispatchers = vec!["SSI0".to_string(), "SSI0".to_string()];
    assert_eq!(check::app(&app), Err(BuildConfigurationError::DuplicateBinding));
    app.dispatchers = vec!["SSI0".to_string()];
    assert_eq!(check::app(&app), Err(BuildConfigurationError::UnschedulablePriority));
    app.dispatchers = vec!["SSI0".to_string(), "QEI0".to_string()];
    app.shared_resources[1].lock_free = true;
    app.hardware_tasks[0].shared_resources = vec![1];
    assert_eq!(check::app(&app), Ok(()));
    app.idle_shared_resources = vec![1];
    assert_eq!(check::app(&app), Err(BuildConfigurationError::ConflictingCeilings));
    app.software_tasks[2].local_resources = vec![0];
    assert_eq!(check::app(&app), Err(BuildConfigurationError::DuplicateBinding));
    app.software_tasks[2].local_resources = vec![4];
    assert_eq!(check::app(&app), Err(BuildConfigurationError::UnknownResource));
}

#[test]
fn a_local_resource_belongs_to_one_context() {
    let mut app = sample();
    app.hardware_tasks[0].local_resources = vec![2];
    assert_eq!(check::app(&app), Err(BuildConfigurationError::DuplicateBinding));
    app.hardware_tasks[0].local_resources = vec![1];
    assert_eq!(check::app(&app), Err(BuildConfigurationError::DuplicateBinding));
    app.hardware_tasks[0].local_resources = vec![3];
    assert_eq!(check::app(&app), Ok(()));
    app.init_local_resources = vec![2, 7];
    assert_eq!(check::app(&app), Err(BuildConfigurationError::UnknownResource));
}

#[test]
fn ceilings_are_the_highest_accessor_priority() {
    let app = sample();
    assert_eq!(analyze::ceiling_of(&app, 0), 3);
    assert_eq!(analyze::ceiling_of(&app, 1), 2);
    assert_eq!(analyze::ceiling_of(&app, 2), 0);
    assert_eq!(analyze::ceilings(&app), vec![3, 2, 0]);
    assert!(analyze::names_resource(&vec![4, 2], 2));
    assert!(!analyze::names_resource(&vec![4, 2], 3));
}

#[test]
fn level_capacity_is_the_sum_of_its_tasks() {
    let mut app = sample();
    assert_eq!(analyze::capacity_of_level(&app, 1), Some(5));
    assert_eq!(analyze::capacity_of_level(&app, 3), Some(1));
    assert_eq!(analyze::capacity_of_level(&app, 2), Some(0));
    app.software_tasks[0].capacity = 253;
    assert_eq!(analyze::capacity_of_level(&app, 1), None);
    app.software_tasks[0].capacity = 252;
    assert_eq!(analyze::capacity_of_level(&app, 1), Some(255));
    assert!(analyze::level_in_use(&app, 3));
    assert!(!analyze::level_in_use(&app, 2));
    assert_eq!(analyze::tasks_of_level(&app, 1), vec![0, 2]);
}

#[test]
fn analysis_builds_channels_lowest_level_first() {
    let app = sample();
    let analysis = analyze::app(&app);
    assert_eq!(analysis.channels.len(), 2);
    assert_eq!(analysis.channels[0].level, 1);
    assert_eq!(analysis.channels[0].capacity, 5);
    assert_eq!(analysis.channels[0].tasks, vec![0, 2]);
    assert_eq!(analysis.channels[1].level, 3);
    assert_eq!(analysis.channels[1].capacity, 1);
    assert_eq!(analysis.channels[1].tasks, vec![1]);
    // the highest level is served by the first dispatcher interrupt
    assert_eq!(analysis.interrupts, vec!["QEI0".to_string(), "SSI0".to_string()]);
    assert_eq!(analysis.ceilings, vec![3, 2, 0]);
    assert_eq!(analysis.shared_live, vec![true, true, false]);
    assert_eq!(analysis.local_live, vec![true, true, true, false]);
    assert!(analyze::shared_is_live(&app, 1));
    assert!(!analyze::local_is_live(&app, 3));
}

#[test]
fn dispatchers_are_laid_out_per_level() {
    let app = sample();
    let analysis = analyze::app(&app);
    let items = dispatchers::codegen(&app, &analysis);
    assert_eq!(items.len(), 2);
    let low = &items[0];
    assert_eq!(low.level, 1);
    assert_eq!(low.interrupt, "QEI0");
    assert_eq!(low.queue_size, 6);
    assert_eq!(low.doc, "Interrupt handler to dispatch tasks at priority 1");
    assert_eq!(low.arms.len(), 2);
    assert_eq!(low.arms[0].task, 0);
    assert_eq!(low.arms[0].name, "blink");
    assert_eq!(low.arms[0].arg_cnt, 1);
    assert_eq!(
        low.arms[0].trace_enter.format,
        "AUXON_TASK_ENTER::task=blink,priority=1,dispatcher=QEI0,arg_cnt=1,queue_index={=u8}"
    );
    assert_eq!(low.arms[0].trace_enter.args, vec!["index".to_string()]);
    assert_eq!(low.arms[0].trace_exit.format, "AUXON_TASK_EXIT");
    assert_eq!(low.arms[1].task, 2);
    assert_eq!(low.arms[1].name, "beep");
    assert_eq!(low.arms[1].arg_cnt, 2);
    assert_eq!(
        low.trace_interrupt_enter.format,
        "AUXON_INTERRUPT_ENTER::interrupt={=u32},priority=1,isr=QEI0"
    );
    assert_eq!(low.trace_interrupt_enter.args, vec!["pac::Interrupt::QEI0 as u32".to_string()]);
    assert_eq!(low.trace_interrupt_exit.format, "AUXON_INTERRUPT_EXIT");
    let high = &items[1];
    assert_eq!(high.level, 3);
    assert_eq!(high.interrupt, "SSI0");
    assert_eq!(high.queue_size, 2);
    assert_eq!(high.doc, "Interrupt handler to dispatch tasks at priority 3");
    assert_eq!(high.arms.len(), 1);
    assert_eq!(high.arms[0].name, "log");
}

#[test]
fn trampolines_are_laid_out_per_hardware_task() {
    let app = sample();
    let items = hardware_tasks::codegen(&app);
    assert_eq!(items.len(), 2);
    let uart = &items[0];
    assert_eq!(uart.task, 0);
    assert_eq!(uart.name, "uart");
    assert_eq!(uart.symbol, "UART0");
    assert_eq!(uart.priority, 2);
    assert_eq!(uart.trampoline_doc, " User HW task ISR trampoline for uart");
    assert_eq!(uart.task_doc, " User HW task: uart");
    assert_eq!(
        uart.trace_interrupt_enter.format,
        "AUXON_INTERRUPT_ENTER::interrupt={=u32},priority=2,isr=UART0"
    );
    assert_eq!(uart.trace_interrupt_enter.args, vec!["pac::Interrupt::UART0 as u32".to_string()]);
    assert_eq!(uart.trace_interrupt_exit.format, "AUXON_INTERRUPT_EXIT");
    assert_eq!(uart.trace_task_enter.format, "AUXON_TASK_ENTER::task=uart,priority=2,isr=UART0");
    assert_eq!(uart.trace_task_exit.format, "AUXON_TASK_EXIT");
    assert!(uart.has_shared);
    assert!(!uart.has_locals);
    assert!(uart.emits_body);
    let tick = &items[1];
    assert_eq!(tick.symbol, "SysTick");
    assert_eq!(tick.priority, 4);
    assert!(!tick.has_shared);
    assert!(tick.has_locals);
    assert!(!tick.emits_body);
}

#[test]
fn init_plan_lists_every_resource() {
    let app = sample();
    let plan = init::codegen(&app);
    assert_eq!(plan.name, "init");
    assert_eq!(plan.shared_fields, vec!["counter", "buffer", "unused"]);
    assert_eq!(plan.local_fields, vec!["led", "timer", "setup", "spare"]);
    assert_eq!(plan.shared_doc, " RTIC shared resource struct");
    assert_eq!(plan.local_doc, " RTIC local resource struct");
    assert_eq!(plan.user_init_doc, " User provided init function");
    assert!(plan.has_locals);
    assert_eq!(plan.trace_start.format, "AUXON_TRACE_START::version=1,task=init");
    assert!(plan.trace_start.args.is_empty());
}

#[test]
fn post_init_writes_every_resource_then_arms_clocks_then_enables() {
    let app = sample();
    let steps = post_init::codegen(&app);
    // the third shared and the fourth local resource are declared by no
    // context; they are written all the same
    assert_eq!(
        steps,
        vec![
            PostInitStep::WriteShared(0),
            PostInitStep::WriteShared(1),
            PostInitStep::WriteShared(2),
            PostInitStep::WriteLocal(0),
            PostInitStep::WriteLocal(1),
            PostInitStep::WriteLocal(2),
            PostInitStep::WriteLocal(3),
            PostInitStep::InitProbe(0),
            PostInitStep::ResetMonotonic(0),
            PostInitStep::StoreMonotonic(0),
            PostInitStep::ResetMonotonic(1),
            PostInitStep::StoreMonotonic(1),
            PostInitStep::EnableInterrupts,
        ]
    );
}

#[test]
fn bring_up_passes_through_its_phases_in_order() {
    let mut b = BringUp::new(sample()).ok().unwrap();
    assert_eq!(b.phase(), Phase::Uninitialized);
    assert_eq!(b.apply(PostInitStep::WriteShared(0)), Err(BringUpError::OutOfOrder));
    assert_eq!(b.apply(PostInitStep::EnableInterrupts), Err(BringUpError::OutOfOrder));
    assert_eq!(b.init_returned(), Ok(()));
    assert_eq!(b.init_returned(), Err(BringUpError::OutOfOrder));
    assert_eq!(b.phase(), Phase::ResourcesConstructed);
    assert_eq!(b.apply(PostInitStep::EnableInterrupts), Err(BringUpError::OutOfOrder));
    let steps = post_init::codegen(b.app());
    let before_enable = steps[..steps.len() - 1].to_vec();
    assert_eq!(b.run(&before_enable), Ok(()));
    assert_eq!(b.phase(), Phase::MonotonicsArmed);
    assert_eq!(b.apply(PostInitStep::EnableInterrupts), Ok(()));
    assert_eq!(b.phase(), Phase::Live);
    assert_eq!(b.apply(PostInitStep::WriteShared(0)), Err(BringUpError::OutOfOrder));
    assert_eq!(b.init_returned(), Err(BringUpError::OutOfOrder));
    let s: Scheduler<u8> = b.start().ok().unwrap();
    assert_eq!(s.current_priority(), 0);
    assert_eq!(s.free_count(0), 2);
}

#[test]
fn bring_up_refuses_repeats_and_unknowns() {
    let mut b = BringUp::new(sample()).ok().unwrap();
    b.init_returned().unwrap();
    assert_eq!(b.apply(PostInitStep::WriteShared(0)), Ok(()));
    assert_eq!(b.apply(PostInitStep::WriteShared(0)), Err(BringUpError::Repeated));
    assert_eq!(b.apply(PostInitStep::WriteShared(2)), Ok(()));
    assert_eq!(b.apply(PostInitStep::WriteShared(3)), Err(BringUpError::Unknown));
    assert_eq!(b.apply(PostInitStep::WriteLocal(4)), Err(BringUpError::Unknown));
    assert_eq!(b.apply(PostInitStep::WriteLocal(3)), Ok(()));
    assert_eq!(b.apply(PostInitStep::WriteLocal(1)), Ok(()));
    assert_eq!(b.apply(PostInitStep::WriteLocal(1)), Err(BringUpError::Repeated));
    assert_eq!(b.apply(PostInitStep::InitProbe(1)), Err(BringUpError::Unknown));
    assert_eq!(b.apply(PostInitStep::InitProbe(0)), Ok(()));
    assert_eq!(b.apply(PostInitStep::InitProbe(0)), Err(BringUpError::Repeated));
    assert_eq!(b.apply(PostInitStep::StoreMonotonic(0)), Err(BringUpError::OutOfOrder));
    assert_eq!(b.apply(PostInitStep::ResetMonotonic(0)), Ok(()));
    assert_eq!(b.apply(PostInitStep::ResetMonotonic(0)), Err(BringUpError::Repeated));
    assert_eq!(b.apply(PostInitStep::ResetMonotonic(2)), Err(BringUpError::Unknown));
    assert_eq!(b.apply(PostInitStep::StoreMonotonic(0)), Ok(()));
    assert_eq!(b.apply(PostInitStep::StoreMonotonic(0)), Err(BringUpError::Repeated));
    assert_eq!(b.apply(PostInitStep::StoreMonotonic(2)), Err(BringUpError::Unknown));
    assert_eq!(b.phase(), Phase::ResourcesConstructed);
    assert!(b.start::<u8>().is_err());
}

#[test]
fn interrupts_wait_for_every_resource() {
    let mut b = BringUp::new(sample()).ok().unwrap();
    b.init_returned().unwrap();
    let steps = post_init::codegen(b.app());
    // everything but the write of the shared resource that no context
    // declares, and the enabling of interrupts
    for step in &steps[..steps.len() - 1] {
        if *step != PostInitStep::WriteShared(2) {
            assert_eq!(b.apply(*step), Ok(()));
        }
    }
    assert_eq!(b.phase(), Phase::ResourcesConstructed);
    assert_eq!(b.apply(PostInitStep::EnableInterrupts), Err(BringUpError::OutOfOrder));
    assert_eq!(b.apply(PostInitStep::WriteShared(2)), Ok(()));
    assert_eq!(b.phase(), Phase::MonotonicsArmed);
    assert_eq!(b.apply(PostInitStep::EnableInterrupts), Ok(()));
    assert_eq!(b.phase(), Phase::Live);
}

#[test]
fn each_step_is_generated_once() {
    let app = sample();
    let steps = post_init::codegen(&app);
    assert_eq!(steps.len(), 3 + 4 + 1 + 2 * 2 + 1);
    for (k, step) in steps.iter().enumerate() {
        assert_eq!(steps.iter().filter(|other| *other == step).count(), 1);
        assert_eq!(*step == PostInitStep::EnableInterrupts, k == steps.len() - 1);
    }
    for m in 0..2 {
        let reset = steps.iter().position(|s| *s == PostInitStep::ResetMonotonic(m)).unwrap();
        let store = steps.iter().position(|s| *s == PostInitStep::StoreMonotonic(m)).unwrap();
        assert_eq!(store, reset + 1);
    }
}

#[test]
fn run_stops_at_the_first_refusal() {
    let mut b = BringUp::new(sample()).ok().unwrap();
    b.init_returned().unwrap();
    let steps = vec![
        PostInitStep::WriteShared(0),
        PostInitStep::WriteShared(0),
        PostInitStep::WriteShared(1),
    ];
    assert_eq!(b.run(&steps), Err(BringUpError::Repeated));
    assert_eq!(b.apply(PostInitStep::WriteShared(1)), Ok(()));
}

#[test]
fn bring_up_of_an_invalid_description_fails() {
    let mut app = sample();
    app.software_tasks[1].priority = 0;
    assert_eq!(BringUp::new(app).err(), Some(BuildConfigurationError::UnschedulablePriority));
}
