use rtic_sched::tracing::{
    push_decimal, tp_hw_task_enter, tp_idle_task_enter, tp_interrupt_enter, tp_interrupt_exit,
    tp_sw_task_enter, tp_task_cancel, tp_task_exit, tp_task_reschedule_after,
    tp_task_reschedule_at, tp_task_spawn, tp_task_spawn_after, tp_task_spawn_at,
    tp_task_spawn_at_failed, tp_task_spawn_failed, tp_trace_start,
};

fn none() -> Vec<String> {
    vec![]
}

#[test]
fn decimal_numerals() {
    for (n, text) in [(0u8, "0"), (7, "7"), (10, "10"), (42, "42"), (99, "99"), (100, "100"), (105, "105"), (255, "255")] {
        let mut s = String::from("p=");
        push_decimal(&mut s, n);
        assert_eq!(s, format!("p={}", text));
    }
    for n in 0..=255u8 {
        let mut s = String::new();
        push_decimal(&mut s, n);
        assert_eq!(s, n.to_string());
    }
}

#[test]
fn trace_start_text() {
    let tp = tp_trace_start("init");
    assert_eq!(tp.format, "AUXON_TRACE_START::version=1,task=init");
    assert_eq!(tp.args, none());
}

#[test]
fn idle_task_enter_text() {
    let tp = tp_idle_task_enter("idle");
    assert_eq!(tp.format, "AUXON_TASK_ENTER::task=idle,priority=0");
    assert_eq!(tp.args, none());
}

#[test]
fn interrupt_enter_text() {
    let tp = tp_interrupt_enter("stm32f4::stm32f407", 12, "EXTI0");
    assert_eq!(tp.format, "AUXON_INTERRUPT_ENTER::interrupt={=u32},priority=12,isr=EXTI0");
    assert_eq!(tp.args, vec!["stm32f4::stm32f407::Interrupt::EXTI0 as u32".to_string()]);
}

#[test]
fn interrupt_exit_text() {
    let tp = tp_interrupt_exit();
    assert_eq!(tp.format, "AUXON_INTERRUPT_EXIT");
    assert_eq!(tp.args, none());
}

#[test]
fn sw_task_enter_text() {
    let tp = tp_sw_task_enter("blink", 3, "SSI0", 2);
    assert_eq!(
        tp.format,
        "AUXON_TASK_ENTER::task=blink,priority=3,dispatcher=SSI0,arg_cnt=2,queue_index={=u8}"
    );
    assert_eq!(tp.args, vec!["index".to_string()]);
}

#[test]
fn hw_task_enter_text() {
    let tp = tp_hw_task_enter("uart", 200, "UART0");
    assert_eq!(tp.format, "AUXON_TASK_ENTER::task=uart,priority=200,isr=UART0");
    assert_eq!(tp.args, none());
}

#[test]
fn task_exit_text() {
    let tp = tp_task_exit();
    assert_eq!(tp.format, "AUXON_TASK_EXIT");
    assert_eq!(tp.args, none());
}

#[test]
fn task_spawn_text() {
    let tp = tp_task_spawn("pac", "Interrupt", "blink", "SSI0", 1);
    assert_eq!(
        tp.format,
        "AUXON_TASK_SPAWN::task=blink,interrupt={=u32},isr=SSI0,arg_cnt=1,queue_index={=u8}"
    );
    assert_eq!(tp.args, vec!["pac::Interrupt::SSI0 as u32".to_string(), "index".to_string()]);
}

#[test]
fn task_spawn_failed_text() {
    let tp = tp_task_spawn_failed("pac", "Interrupt", "blink", "SSI0", 0);
    assert_eq!(tp.format, "AUXON_TASK_SPAWN_FAILED::task=blink,interrupt={=u32},isr=SSI0,arg_cnt=0");
    assert_eq!(tp.args, vec!["pac::Interrupt::SSI0 as u32".to_string()]);
}

#[test]
fn task_spawn_after_text() {
    let tp = tp_task_spawn_after("blink");
    assert_eq!(tp.format, "AUXON_TASK_SPAWN_AFTER::task=blink,instant={=u64},duration={=u64}");
    assert_eq!(tp.args, vec!["instant.ticks()".to_string(), "duration.ticks()".to_string()]);
}

#[test]
fn task_spawn_at_text() {
    let tp = tp_task_spawn_at("blink", 3);
    assert_eq!(tp.format, "AUXON_TASK_SPAWN_AT::task=blink,instant={=u64},arg_cnt=3,queue_index={=u8}");
    assert_eq!(tp.args, vec!["instant.ticks()".to_string(), "index".to_string()]);
}

#[test]
fn task_spawn_at_failed_text() {
    let tp = tp_task_spawn_at_failed("blink", 3);
    assert_eq!(tp.format, "AUXON_TASK_SPAWN_AT_FAILED::task=blink,instant={=u64},arg_cnt=3");
    assert_eq!(tp.args, vec!["instant.ticks()".to_string()]);
}

#[test]
fn task_cancel_text() {
    let tp = tp_task_cancel("blink");
    assert_eq!(tp.format, "AUXON_TASK_CANCEL::task=blink");
    assert_eq!(tp.args, none());
}

#[test]
fn task_reschedule_texts() {
    let after = tp_task_reschedule_after("blink");
    assert_eq!(after.format, "AUXON_TASK_RESCHEDULE_AFTER::task=blink,duration={=u64}");
    assert_eq!(after.args, vec!["duration.ticks()".to_string()]);
    let at = tp_task_reschedule_at("blink");
    assert_eq!(at.format, "AUXON_TASK_RESCHEDULE_AT::task=blink,instant={=u64}");
    assert_eq!(at.args, vec!["instant.ticks()".to_string()]);
}
