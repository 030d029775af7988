use pubsub_rs::tools::sync_object::{SyncState, WaitAction, WaitEvent};
use std::time::{Duration, Instant};

// A signal sent before waiting is observed immediately.
#[test]
fn test_signal_before_wait_is_not_lost() {
    let mut state = SyncState::new();

    state.signal();

    let start = Instant::now();
    let deadline = start + Duration::from_millis(500);
    let mut action = state.on_wait_event(WaitEvent::Begin);
    while action == WaitAction::Block && Instant::now() < deadline {
        action = state.on_wait_event(WaitEvent::Woken);
    }
    let elapsed = start.elapsed();

    assert!(elapsed < Duration::from_millis(50));
    assert_eq!(action, WaitAction::Proceed);
}

// Without a signal a waiter blocks, then gives up at its deadline.
#[test]
fn sync_state_timeout_gives_up() {
    let mut state = SyncState::default();
    assert_eq!(state.on_wait_event(WaitEvent::Begin), WaitAction::Block);
    assert_eq!(state.on_wait_event(WaitEvent::Woken), WaitAction::Block);
    assert_eq!(state.on_wait_event(WaitEvent::TimedOut), WaitAction::GiveUp);
    // the waiter is gone: a signal now is kept for the next one
    state.signal();
    assert_eq!(state.on_wait_event(WaitEvent::Begin), WaitAction::Proceed);
}

// signal_all wakes every registered waiter, and at least one token is left
// when nobody waits.
#[test]
fn sync_state_signal_all() {
    let mut state = SyncState::new();
    for _ in 0..3 {
        assert_eq!(state.on_wait_event(WaitEvent::Begin), WaitAction::Block);
    }
    state.signal_all();
    for _ in 0..3 {
        assert_eq!(state.on_wait_event(WaitEvent::Woken), WaitAction::Proceed);
    }
    assert_eq!(state.on_wait_event(WaitEvent::Begin), WaitAction::Block);
    assert_eq!(state.on_wait_event(WaitEvent::TimedOut), WaitAction::GiveUp);
    state.signal_all();
    assert_eq!(state.on_wait_event(WaitEvent::Begin), WaitAction::Proceed);
    assert_eq!(state.on_wait_event(WaitEvent::Begin), WaitAction::Block);
}

// A signal arriving just as the deadline passes is still consumed.
#[test]
fn sync_state_signal_at_deadline_is_consumed() {
    let mut state = SyncState::new();
    assert_eq!(state.on_wait_event(WaitEvent::Begin), WaitAction::Block);
    state.signal();
    assert_eq!(state.on_wait_event(WaitEvent::TimedOut), WaitAction::Proceed);
    assert_eq!(state.on_wait_event(WaitEvent::Begin), WaitAction::Block);
}
