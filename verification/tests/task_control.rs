use pubsub_rs::tools::task_control::{
    on_task_message, periodic_poll, periodic_reschedule, sleep_before_deadline, LoopAction,
    PeriodicAction,
};

#[test]
fn task_message_decides_drain_or_stop() {
    assert_eq!(on_task_message(Some(true), false), LoopAction::Drain);
    assert_eq!(on_task_message(Some(true), true), LoopAction::Stop);
    assert_eq!(on_task_message(Some(false), false), LoopAction::Stop);
    assert_eq!(on_task_message(None, false), LoopAction::Stop);
}

#[test]
fn sleep_is_ninety_percent_of_remaining_time() {
    assert_eq!(sleep_before_deadline(1000), 900);
    assert_eq!(sleep_before_deadline(15), 13);
    assert_eq!(sleep_before_deadline(0), 0);
}

#[test]
fn periodic_poll_spins_until_deadline() {
    assert_eq!(periodic_poll(false, 5, 10), PeriodicAction::Spin);
    assert_eq!(periodic_poll(false, 10, 10), PeriodicAction::Run);
    assert_eq!(periodic_poll(false, 12, 10), PeriodicAction::Run);
    assert_eq!(periodic_poll(true, 5, 10), PeriodicAction::Stop);
    assert_eq!(periodic_poll(true, 12, 10), PeriodicAction::Stop);
}

#[test]
fn periodic_reschedule_advances_by_one_period_without_drift() {
    // period 10 ms, deadline at 10 ms, run ended at 12 ms
    let (next, sleep) = periodic_reschedule(10_000_000, 10_000_000, 12_000_000);
    assert_eq!(next, 20_000_000);
    // 8 ms left: sleep 90% of 8000 us
    assert_eq!(sleep, Some(7200));
}

#[test]
fn periodic_reschedule_does_not_sleep_when_late() {
    let (next, sleep) = periodic_reschedule(10_000_000, 10_000_000, 25_000_000);
    assert_eq!(next, 20_000_000);
    assert_eq!(sleep, None);
}
