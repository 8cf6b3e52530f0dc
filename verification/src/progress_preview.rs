//! A made-up run with which a progress screen can be tried out.

use crate::decimal;
use crate::message::Severity;
use crate::text;
use vstd::prelude::*;

verus! {

/// By how many ticks each worker starts after the one before it.
pub const STAGGER_TICKS: usize = 4;

/// How many ticks the run takes.
pub fn total_ticks(num_workers: usize, steps_per_worker: usize) -> (r: usize)
    requires
        steps_per_worker + num_workers * STAGGER_TICKS <= usize::MAX,
    ensures
        r == steps_per_worker + num_workers * STAGGER_TICKS,
{
    steps_per_worker + num_workers * STAGGER_TICKS
}

/// What the run does: it spends a third of its ticks on each phase.
pub open spec fn phase_of(tick: nat, total: nat) -> Seq<char> {
    if tick < total / 3 {
        "indexing"@
    } else if tick < total * 2 / 3 {
        "processing"@
    } else {
        "finalizing"@
    }
}

pub fn phase(tick: usize, total: usize) -> (r: &'static str)
    requires
        total * 2 <= usize::MAX,
    ensures
        r@ == phase_of(tick as nat, total as nat),
{
    if tick < total / 3 {
        "indexing"
    } else if tick < (total * 2) / 3 {
        "processing"
    } else {
        "finalizing"
    }
}

/// How many of its steps a worker has done: none before its start, and no more than it has.
pub open spec fn steps_done(tick: int, worker: int, steps: int) -> int {
    let since = tick - worker * STAGGER_TICKS;
    if since < 0 {
        0
    } else if since < steps {
        since
    } else {
        steps
    }
}

pub fn worker_steps(tick: usize, worker: usize, steps_per_worker: usize) -> (r: usize)
    requires
        worker * STAGGER_TICKS <= usize::MAX,
    ensures
        r == steps_done(tick as int, worker as int, steps_per_worker as int),
{
    let since: usize = tick.saturating_sub(worker * STAGGER_TICKS);
    if since < steps_per_worker {
        since
    } else {
        steps_per_worker
    }
}

/// At the last tick every worker has done all its steps.
pub proof fn run_ends_complete(num_workers: nat, steps: nat, worker: int)
    requires
        0 <= worker < num_workers,
    ensures
        steps_done((steps + num_workers * STAGGER_TICKS) as int, worker, steps as int) == steps,
{
    assert(worker * STAGGER_TICKS <= num_workers * STAGGER_TICKS) by (nonlinear_arith)
        requires
            worker < num_workers,
            STAGGER_TICKS == 4,
    ;
}

/// How much the log line of a tick matters.
pub open spec fn severity_at(tick: nat) -> Severity {
    if tick % 17 == 0 {
        Severity::Error
    } else if tick % 7 == 0 {
        Severity::Warning
    } else {
        Severity::Info
    }
}

pub fn tick_severity(tick: usize) -> (r: Severity)
    ensures
        r == severity_at(tick as nat),
{
    if tick % 17 == 0 {
        Severity::Error
    } else if tick % 7 == 0 {
        Severity::Warning
    } else {
        Severity::Info
    }
}

/// The name of a worker.
pub fn worker_name(worker: usize) -> (s: String)
    requires
        worker < usize::MAX,
    ensures
        s@ == "endpoint-"@ + decimal::decimal((worker + 1) as nat),
{
    text::join2("endpoint-", decimal::usize_text(worker + 1).as_str())
}

/// A number right-aligned in three columns.
pub open spec fn in_three_columns(digits: Seq<char>) -> Seq<char> {
    if digits.len() == 1 {
        "  "@ + digits
    } else if digits.len() == 2 {
        " "@ + digits
    } else {
        digits
    }
}

/// The label of a gauge that is not complete, given its progress in whole per cent.
pub fn running_label(percent: u64, phase: &str) -> (s: String)
    ensures
        s@ == in_three_columns(decimal::decimal(percent as nat)) + "% ("@ + phase@ + ")"@,
{
    let digits = decimal::u64_text(percent);
    let columns = if percent < 10 {
        assert(decimal::decimal(percent as nat).len() == 1);
        text::join2("  ", digits.as_str())
    } else if percent < 100 {
        proof {
            reveal_with_fuel(decimal::decimal, 2);
        }
        assert(decimal::decimal(percent as nat).len() == 2);
        text::join2(" ", digits.as_str())
    } else {
        proof {
            reveal_with_fuel(decimal::decimal, 3);
            decimal::lemma_decimal_digits(
                (percent / 100) as nat,
                percent as nat,
                decimal::IntegerError::TooLarge,
            );
        }
        assert(decimal::decimal(percent as nat).len() >= 3);
        digits
    };
    text::join4(columns.as_str(), "% (", phase, ")")
}

/// The status of the run.
pub fn status_text(complete: bool, finished_workers: usize, num_workers: usize) -> (s: String)
    ensures
        s@ == (if complete {
            "completed"@
        } else {
            "running"@
        }) + " ("@ + decimal::decimal(finished_workers as nat) + "/"@ + decimal::decimal(
            num_workers as nat,
        ) + " endpoints done)"@,
{
    let status = if complete {
        "completed"
    } else {
        "running"
    };
    text::join6(
        status,
        " (",
        decimal::usize_text(finished_workers).as_str(),
        "/",
        decimal::usize_text(num_workers).as_str(),
        " endpoints done)",
    )
}

/// The tick out of all ticks.
pub fn tick_text(tick: usize, total: usize) -> (s: String)
    ensures
        s@ == decimal::decimal(tick as nat) + "/"@ + decimal::decimal(total as nat),
{
    text::join3(decimal::usize_text(tick).as_str(), "/", decimal::usize_text(total).as_str())
}

/// The log line of a tick. `percent_text` is the progress of the whole in per cent, written
/// without decimals.
pub fn tick_line(
    tick: usize,
    phase: &str,
    percent_text: &str,
    finished_workers: usize,
    num_workers: usize,
) -> (s: String)
    ensures
        s@ == "tick="@ + decimal::decimal(tick as nat) + " phase="@ + phase@ + " master="@
            + percent_text@ + "% workers_done="@ + decimal::decimal(finished_workers as nat) + "/"@
            + decimal::decimal(num_workers as nat),
{
    text::join10(
        "tick=",
        decimal::usize_text(tick).as_str(),
        " phase=",
        phase,
        " master=",
        percent_text,
        "% workers_done=",
        decimal::usize_text(finished_workers).as_str(),
        "/",
        decimal::usize_text(num_workers).as_str(),
    )
}

/// A worker has done nothing until its start, four ticks after the worker before it; then one step
/// with each tick, until it has done all.
pub proof fn workers_do_one_step_per_tick(tick: int, worker: int, steps: int)
    requires
        0 <= steps,
        0 <= worker,
    ensures
        tick <= 4 * worker ==> steps_done(tick, worker, steps) == 0,
        4 * worker <= tick < 4 * worker + steps ==> steps_done(tick + 1, worker, steps)
            == steps_done(tick, worker, steps) + 1,
        tick >= 4 * worker + steps ==> steps_done(tick, worker, steps) == steps,
        steps_done(tick + 4, worker + 1, steps) == steps_done(tick, worker, steps),
{
}

/// The run is in its first phase for the first third of its ticks, and in the last one from the
/// end of the second third on.
pub proof fn phases_take_a_third_each(tick: nat, total: nat)
    ensures
        3 * (tick + 1) <= total ==> phase_of(tick, total) == "indexing"@,
        total / 3 <= tick && 3 * (tick + 1) <= 2 * total ==> phase_of(tick, total) == "processing"@,
        3 * tick >= 2 * total && tick >= total / 3 ==> phase_of(tick, total) == "finalizing"@,
{
}

/// Every seventeenth line is an error, and of the others every seventh is a warning.
pub proof fn severities_of_ticks(n: nat)
    ensures
        severity_at(17 * n) == Severity::Error,
        7 * n % 17 != 0 ==> severity_at(7 * n) == Severity::Warning,
        n % 17 != 0 && n % 7 != 0 ==> severity_at(n) == Severity::Info,
{
}

/// A number below a thousand takes up three columns, with its digits on the right.
pub proof fn numbers_stand_on_the_right(digits: Seq<char>)
    requires
        1 <= digits.len() <= 3,
    ensures
        in_three_columns(digits).len() == 3,
        in_three_columns(digits).skip(3 - digits.len()) == digits,
        forall|i: int| 0 <= i < 3 - digits.len() ==> in_three_columns(digits)[i] == ' ',
{
    reveal_strlit("  ");
    reveal_strlit(" ");
    assert(in_three_columns(digits).skip(3 - digits.len()) =~= digits);
}

}
