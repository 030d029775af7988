//! Decisions of the task loops (worker, data and periodic tasks). The loops
//! themselves run on threads of the caller: they receive the events, ask
//! these functions what to do, and do it.

use vstd::prelude::*;

verus! {

/// What a worker or data task does after waiting on its wake-up channel.
#[derive(Debug, Clone, Copy, PartialEq, Eq, Structural)]
pub enum LoopAction {
    /// Leave the loop: a stop was requested or the channel closed.
    Stop,
    /// Process every queued job or datum, then wait again.
    Drain,
}

/// Decides the next step of a worker or data task loop. `message` is what
/// the wake-up channel delivered (`None` when it is closed, `Some(false)`
/// for a stop message) and `stop_requested` the task's stop flag.
pub fn on_task_message(message: Option<bool>, stop_requested: bool) -> (action: LoopAction)
    ensures
        action == (if message == Some(true) && !stop_requested {
            LoopAction::Drain
        } else {
            LoopAction::Stop
        }),
{
    let received = match message {
        Some(value) => value,
        None => false,
    };
    if !received || stop_requested {
        LoopAction::Stop
    } else {
        LoopAction::Drain
    }
}

/// Time a periodic task sleeps before busy-waiting for its next deadline:
/// 90% of the `remaining_micros` microseconds left, truncated to 64 bits.
pub fn sleep_before_deadline(remaining_micros: u128) -> (sleep_micros: u64)
    requires
        remaining_micros <= u128::MAX / 90,
    ensures
        sleep_micros == (remaining_micros * 90 / 100) as u64,
{
    let scaled: u128 = remaining_micros * 90 / 100;
    #[verifier::truncate]
    (scaled as u64)
}

/// What a periodic task does at each poll of its loop.
#[derive(Debug, Clone, Copy, PartialEq, Eq, Structural)]
pub enum PeriodicAction {
    /// Leave the loop: a stop was requested.
    Stop,
    /// The deadline is still ahead: keep busy-waiting.
    Spin,
    /// The deadline is reached: run the task function.
    Run,
}

/// Decides what a periodic task does when polled at `now_nanos` (time since
/// the task started) with its next run due at `deadline_nanos`.
pub fn periodic_poll(stop_requested: bool, now_nanos: u128, deadline_nanos: u128) -> (action: PeriodicAction)
    ensures
        action == (if stop_requested {
            PeriodicAction::Stop
        } else if now_nanos < deadline_nanos {
            PeriodicAction::Spin
        } else {
            PeriodicAction::Run
        }),
{
    if stop_requested {
        PeriodicAction::Stop
    } else if now_nanos < deadline_nanos {
        PeriodicAction::Spin
    } else {
        PeriodicAction::Run
    }
}

/// Schedules the next run of a periodic task after a run that ended at
/// `now_nanos`: the next deadline is one period after the current one
/// (runs do not drift by their own duration), and, when that deadline is
/// still ahead, the task first sleeps for 90% of the whole microseconds left
/// (at most `u128::MAX / 90` of them are counted).
pub fn periodic_reschedule(deadline_nanos: u128, period_nanos: u128, now_nanos: u128) -> (r: (
    u128,
    Option<u64>,
))
    requires
        deadline_nanos + period_nanos <= u128::MAX,
    ensures
        r.0 == deadline_nanos + period_nanos,
        r.1 == (if r.0 > now_nanos {
            let remaining = (r.0 - now_nanos) / 1000;
            let counted: int = if remaining > u128::MAX / 90 {
                (u128::MAX / 90) as int
            } else {
                remaining
            };
            Some((counted * 90 / 100) as u64)
        } else {
            None
        }),
{
    let next = deadline_nanos + period_nanos;
    if next > now_nanos {
        let remaining = (next - now_nanos) / 1000;
        let counted = if remaining > u128::MAX / 90 {
            u128::MAX / 90
        } else {
            remaining
        };
        (next, Some(sleep_before_deadline(counted)))
    } else {
        (next, None)
    }
}

} // verus!
