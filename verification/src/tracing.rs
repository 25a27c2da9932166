//! Trace points.
//!
//! Each trace point is a format string with a fixed, ordered set of named
//! fields, followed by the expressions that supply the fields left open in
//! it. The collector that reads the trace relies on the names and on their
//! order.

use vstd::prelude::*;
use vstd::string::StringExecFns;

verus! {

/// A trace point: the text that is logged, and the expressions that fill
/// the fields the text leaves open (`{=u8}`, `{=u32}`, `{=u64}`), in order.
pub struct TracePoint {
    pub format: String,
    pub args: Vec<String>,
}

/// The decimal digit `d` as a character.
pub open spec fn digit(d: nat) -> char {
    if d == 0 {
        '0'
    } else if d == 1 {
        '1'
    } else if d == 2 {
        '2'
    } else if d == 3 {
        '3'
    } else if d == 4 {
        '4'
    } else if d == 5 {
        '5'
    } else if d == 6 {
        '6'
    } else if d == 7 {
        '7'
    } else if d == 8 {
        '8'
    } else {
        '9'
    }
}

/// The decimal numeral of `n`, without leading zeros.
pub open spec fn decimal(n: nat) -> Seq<char>
    decreases n,
{
    if n < 10 {
        seq![digit(n)]
    } else {
        decimal(n / 10).push(digit(n % 10))
    }
}

/// The text logged on entry into a software task.
pub open spec fn sw_task_enter_text(
    task: Seq<char>,
    priority: nat,
    dispatcher: Seq<char>,
    arg_cnt: nat,
) -> Seq<char> {
    "AUXON_TASK_ENTER::task="@ + task + ",priority="@ + decimal(priority) + ",dispatcher="@
        + dispatcher + ",arg_cnt="@ + decimal(arg_cnt) + ",queue_index={=u8}"@
}

/// The text logged on entry into a hardware task.
pub open spec fn hw_task_enter_text(task: Seq<char>, priority: nat, interrupt: Seq<char>) -> Seq<
    char,
> {
    "AUXON_TASK_ENTER::task="@ + task + ",priority="@ + decimal(priority) + ",isr="@ + interrupt
}

/// The text logged on entry into an interrupt handler.
pub open spec fn interrupt_enter_text(priority: nat, interrupt: Seq<char>) -> Seq<char> {
    "AUXON_INTERRUPT_ENTER::interrupt={=u32},priority="@ + decimal(priority) + ",isr="@
        + interrupt
}

/// The expression that yields the number of an interrupt of `device`.
pub open spec fn interrupt_number_text(device: Seq<char>, interrupt: Seq<char>) -> Seq<char> {
    device + "::Interrupt::"@ + interrupt + " as u32"@
}

/// The text logged when a trace starts.
pub open spec fn trace_start_text(task: Seq<char>) -> Seq<char> {
    "AUXON_TRACE_START::version=1,task="@ + task
}

/// The numeral of one decimal digit.
fn digit_text(d: u8) -> (s: &'static str)
    requires
        d < 10,
    ensures
        s@ == seq![digit(d as nat)],
{
    proof {
        reveal_strlit("0");
        reveal_strlit("1");
        reveal_strlit("2");
        reveal_strlit("3");
        reveal_strlit("4");
        reveal_strlit("5");
        reveal_strlit("6");
        reveal_strlit("7");
        reveal_strlit("8");
        reveal_strlit("9");
    }
    let s = if d == 0 {
        "0"
    } else if d == 1 {
        "1"
    } else if d == 2 {
        "2"
    } else if d == 3 {
        "3"
    } else if d == 4 {
        "4"
    } else if d == 5 {
        "5"
    } else if d == 6 {
        "6"
    } else if d == 7 {
        "7"
    } else if d == 8 {
        "8"
    } else {
        "9"
    };
    assert(s@ =~= seq![digit(d as nat)]);
    s
}

/// Appends the decimal numeral of `n` to `text`.
pub fn push_decimal(text: &mut String, n: u8)
    ensures
        final(text)@ == old(text)@ + decimal(n as nat),
{
    let ghost before = text@;
    let hundreds = n / 100;
    let tens = (n / 10) % 10;
    let ones = n % 10;
    proof {
        reveal_with_fuel(decimal, 3);
    }
    if n >= 100 {
        text.append(digit_text(hundreds));
    }
    if n >= 10 {
        text.append(digit_text(tens));
    }
    text.append(digit_text(ones));
    assert(text@ =~= before + decimal(n as nat));
}

/// The start of a trace, logged before the initialisation routine `task`
/// runs.
pub fn tp_trace_start(task: &str) -> (tp: TracePoint)
    ensures
        tp.format@ == trace_start_text(task@),
        tp.args@.len() == 0,
{
    let mut format = String::from_str("AUXON_TRACE_START::version=1,task=");
    format.append(task);
    TracePoint { format, args: Vec::new() }
}

/// Entry into the idle task `task`, which runs at priority 0.
pub fn tp_idle_task_enter(task: &str) -> (tp: TracePoint)
    ensures
        tp.format@ == "AUXON_TASK_ENTER::task="@ + task@ + ",priority=0"@,
        tp.args@.len() == 0,
{
    let mut format = String::from_str("AUXON_TASK_ENTER::task=");
    format.append(task);
    format.append(",priority=0");
    TracePoint { format, args: Vec::new() }
}

/// Entry into the handler of `interrupt`, which runs at `priority`. The
/// number of the interrupt, as `device` defines it, fills the open field.
pub fn tp_interrupt_enter(device: &str, priority: u8, interrupt: &str) -> (tp: TracePoint)
    ensures
        tp.format@ == interrupt_enter_text(priority as nat, interrupt@),
        tp.args@.len() == 1,
        tp.args@[0]@ == interrupt_number_text(device@, interrupt@),
{
    let mut format = String::from_str("AUXON_INTERRUPT_ENTER::interrupt={=u32},priority=");
    push_decimal(&mut format, priority);
    format.append(",isr=");
    format.append(interrupt);
    let mut number = String::from_str(device);
    number.append("::Interrupt::");
    number.append(interrupt);
    number.append(" as u32");
    let mut args: Vec<String> = Vec::new();
    args.push(number);
    TracePoint { format, args }
}

/// Exit from an interrupt handler.
pub fn tp_interrupt_exit() -> (tp: TracePoint)
    ensures
        tp.format@ == "AUXON_INTERRUPT_EXIT"@,
        tp.args@.len() == 0,
{
    TracePoint { format: String::from_str("AUXON_INTERRUPT_EXIT"), args: Vec::new() }
}

/// Entry into software task `task`, started at `priority` by `dispatcher`
/// with `arg_cnt` arguments. The index of the slot that held the arguments
/// fills the open field.
pub fn tp_sw_task_enter(task: &str, priority: u8, dispatcher: &str, arg_cnt: u8) -> (tp:
    TracePoint)
    ensures
        tp.format@ == sw_task_enter_text(task@, priority as nat, dispatcher@, arg_cnt as nat),
        tp.args@.len() == 1,
        tp.args@[0]@ == "index"@,
{
    let mut format = String::from_str("AUXON_TASK_ENTER::task=");
    format.append(task);
    format.append(",priority=");
    push_decimal(&mut format, priority);
    format.append(",dispatcher=");
    format.append(dispatcher);
    format.append(",arg_cnt=");
    push_decimal(&mut format, arg_cnt);
    format.append(",queue_index={=u8}");
    let mut args: Vec<String> = Vec::new();
    args.push(String::from_str("index"));
    TracePoint { format, args }
}

/// Entry into hardware task `task`, started at `priority` by `interrupt`.
pub fn tp_hw_task_enter(task: &str, priority: u8, interrupt: &str) -> (tp: TracePoint)
    ensures
        tp.format@ == hw_task_enter_text(task@, priority as nat, interrupt@),
        tp.args@.len() == 0,
{
    let mut format = String::from_str("AUXON_TASK_ENTER::task=");
    format.append(task);
    format.append(",priority=");
    push_decimal(&mut format, priority);
    format.append(",isr=");
    format.append(interrupt);
    TracePoint { format, args: Vec::new() }
}

/// Exit from a task.
pub fn tp_task_exit() -> (tp: TracePoint)
    ensures
        tp.format@ == "AUXON_TASK_EXIT"@,
        tp.args@.len() == 0,
{
    TracePoint { format: String::from_str("AUXON_TASK_EXIT"), args: Vec::new() }
}

/// The path of an interrupt's variant in the device crate, as a number.
fn interrupt_number(device: &str, enum_: &str, interrupt: &str) -> (text: String)
    ensures
        text@ == device@ + "::"@ + enum_@ + "::"@ + interrupt@ + " as u32"@,
{
    let mut text = String::from_str(device);
    text.append("::");
    text.append(enum_);
    text.append("::");
    text.append(interrupt);
    text.append(" as u32");
    text
}

/// A spawn of software task `task` with `arg_cnt` arguments, which pends
/// `interrupt`. The number of the interrupt and the index of the slot that
/// took the arguments fill the open fields.
pub fn tp_task_spawn(device: &str, enum_: &str, task: &str, interrupt: &str, arg_cnt: u8) -> (tp:
    TracePoint)
    ensures
        tp.format@ == "AUXON_TASK_SPAWN::task="@ + task@ + ",interrupt={=u32},isr="@ + interrupt@
            + ",arg_cnt="@ + decimal(arg_cnt as nat) + ",queue_index={=u8}"@,
        tp.args@.len() == 2,
        tp.args@[0]@ == device@ + "::"@ + enum_@ + "::"@ + interrupt@ + " as u32"@,
        tp.args@[1]@ == "index"@,
{
    let mut format = String::from_str("AUXON_TASK_SPAWN::task=");
    format.append(task);
    format.append(",interrupt={=u32},isr=");
    format.append(interrupt);
    format.append(",arg_cnt=");
    push_decimal(&mut format, arg_cnt);
    format.append(",queue_index={=u8}");
    let mut args: Vec<String> = Vec::new();
    args.push(interrupt_number(device, enum_, interrupt));
    args.push(String::from_str("index"));
    TracePoint { format, args }
}

/// A spawn of software task `task` that failed for want of a free slot.
pub fn tp_task_spawn_failed(
    device: &str,
    enum_: &str,
    task: &str,
    interrupt: &str,
    arg_cnt: u8,
) -> (tp: TracePoint)
    ensures
        tp.format@ == "AUXON_TASK_SPAWN_FAILED::task="@ + task@ + ",interrupt={=u32},isr="@
            + interrupt@ + ",arg_cnt="@ + decimal(arg_cnt as nat),
        tp.args@.len() == 1,
        tp.args@[0]@ == device@ + "::"@ + enum_@ + "::"@ + interrupt@ + " as u32"@,
{
    let mut format = String::from_str("AUXON_TASK_SPAWN_FAILED::task=");
    format.append(task);
    format.append(",interrupt={=u32},isr=");
    format.append(interrupt);
    format.append(",arg_cnt=");
    push_decimal(&mut format, arg_cnt);
    let mut args: Vec<String> = Vec::new();
    args.push(interrupt_number(device, enum_, interrupt));
    TracePoint { format, args }
}

/// A spawn of `task` scheduled for a duration after an instant, both in
/// ticks of the clock.
pub fn tp_task_spawn_after(task: &str) -> (tp: TracePoint)
    ensures
        tp.format@ == "AUXON_TASK_SPAWN_AFTER::task="@ + task@
            + ",instant={=u64},duration={=u64}"@,
        tp.args@.len() == 2,
        tp.args@[0]@ == "instant.ticks()"@,
        tp.args@[1]@ == "duration.ticks()"@,
{
    let mut format = String::from_str("AUXON_TASK_SPAWN_AFTER::task=");
    format.append(task);
    format.append(",instant={=u64},duration={=u64}");
    let mut args: Vec<String> = Vec::new();
    args.push(String::from_str("instant.ticks()"));
    args.push(String::from_str("duration.ticks()"));
    TracePoint { format, args }
}

/// A spawn of `task` with `arg_cnt` arguments scheduled for an instant.
pub fn tp_task_spawn_at(task: &str, arg_cnt: u8) -> (tp: TracePoint)
    ensures
        tp.format@ == "AUXON_TASK_SPAWN_AT::task="@ + task@ + ",instant={=u64},arg_cnt="@
            + decimal(arg_cnt as nat) + ",queue_index={=u8}"@,
        tp.args@.len() == 2,
        tp.args@[0]@ == "instant.ticks()"@,
        tp.args@[1]@ == "index"@,
{
    let mut format = String::from_str("AUXON_TASK_SPAWN_AT::task=");
    format.append(task);
    format.append(",instant={=u64},arg_cnt=");
    push_decimal(&mut format, arg_cnt);
    format.append(",queue_index={=u8}");
    let mut args: Vec<String> = Vec::new();
    args.push(String::from_str("instant.ticks()"));
    args.push(String::from_str("index"));
    TracePoint { format, args }
}

/// A spawn of `task` for an instant that failed for want of a free slot.
pub fn tp_task_spawn_at_failed(task: &str, arg_cnt: u8) -> (tp: TracePoint)
    ensures
        tp.format@ == "AUXON_TASK_SPAWN_AT_FAILED::task="@ + task@ + ",instant={=u64},arg_cnt="@
            + decimal(arg_cnt as nat),
        tp.args@.len() == 1,
        tp.args@[0]@ == "instant.ticks()"@,
{
    let mut format = String::from_str("AUXON_TASK_SPAWN_AT_FAILED::task=");
    format.append(task);
    format.append(",instant={=u64},arg_cnt=");
    push_decimal(&mut format, arg_cnt);
    let mut args: Vec<String> = Vec::new();
    args.push(String::from_str("instant.ticks()"));
    TracePoint { format, args }
}

/// The cancellation of a scheduled spawn of `task`.
pub fn tp_task_cancel(task: &str) -> (tp: TracePoint)
    ensures
        tp.format@ == "AUXON_TASK_CANCEL::task="@ + task@,
        tp.args@.len() == 0,
{
    let mut format = String::from_str("AUXON_TASK_CANCEL::task=");
    format.append(task);
    TracePoint { format, args: Vec::new() }
}

/// A scheduled spawn of `task` moved to a duration from now.
pub fn tp_task_reschedule_after(task: &str) -> (tp: TracePoint)
    ensures
        tp.format@ == "AUXON_TASK_RESCHEDULE_AFTER::task="@ + task@ + ",duration={=u64}"@,
        tp.args@.len() == 1,
        tp.args@[0]@ == "duration.ticks()"@,
{
    let mut format = String::from_str("AUXON_TASK_RESCHEDULE_AFTER::task=");
    format.append(task);
    format.append(",duration={=u64}");
    let mut args: Vec<String> = Vec::new();
    args.push(String::from_str("duration.ticks()"));
    TracePoint { format, args }
}

/// A scheduled spawn of `task` moved to another instant.
pub fn tp_task_reschedule_at(task: &str) -> (tp: TracePoint)
    ensures
        tp.format@ == "AUXON_TASK_RESCHEDULE_AT::task="@ + task@ + ",instant={=u64}"@,
        tp.args@.len() == 1,
        tp.args@[0]@ == "instant.ticks()"@,
{
    let mut format = String::from_str("AUXON_TASK_RESCHEDULE_AT::task=");
    format.append(task);
    format.append(",instant={=u64}");
    let mut args: Vec<String> = Vec::new();
    args.push(String::from_str("instant.ticks()"));
    TracePoint { format, args }
}

} // verus!

