use std::sync::atomic::{AtomicU8, Ordering};

use gmod_buttplug::lifecycle::{
    is_live, start_swap, stop_swap, try_begin_start, try_begin_stop, STATE_RUNNING, STATE_STARTING, STATE_STOPPED,
    STATE_STOPPING,
};
use gmod_buttplug::session::{on_session_end, on_setup, LuaEvent};

#[test]
fn start_from_stopped_succeeds_and_transitions() {
    let s = AtomicU8::new(STATE_STOPPED);
    assert!(try_begin_start(&s));
    assert_eq!(s.load(Ordering::Acquire), STATE_STARTING);
}

#[test]
fn start_from_non_stopped_states_is_refused() {
    for st in [STATE_STARTING, STATE_RUNNING, STATE_STOPPING] {
        let s = AtomicU8::new(st);
        assert!(!try_begin_start(&s), "expected refusal from state {st}");
        assert_eq!(s.load(Ordering::Acquire), st, "state unexpectedly moved");
    }
}

#[test]
fn stop_from_running_succeeds_and_transitions() {
    let s = AtomicU8::new(STATE_RUNNING);
    assert!(try_begin_stop(&s));
    assert_eq!(s.load(Ordering::Acquire), STATE_STOPPING);
}

#[test]
fn stop_from_non_running_states_is_refused() {
    for st in [STATE_STOPPED, STATE_STARTING, STATE_STOPPING] {
        let s = AtomicU8::new(st);
        assert!(!try_begin_stop(&s), "expected refusal from state {st}");
        assert_eq!(s.load(Ordering::Acquire), st, "state unexpectedly moved");
    }
}

// Full round-trip: `buttplug.Start() → Ready → Disconnect → Disconnected →
// Start()`. The `store` calls simulate the completion edges
// (STARTING→RUNNING, STOPPING→STOPPED) that the session task takes after the
// async setup / teardown resolves.
#[test]
fn full_lifecycle_round_trip() {
    let s = AtomicU8::new(STATE_STOPPED);

    assert!(try_begin_start(&s));
    assert_eq!(s.load(Ordering::Acquire), STATE_STARTING);
    s.store(STATE_RUNNING, Ordering::Release); // Ready

    assert!(try_begin_stop(&s));
    assert_eq!(s.load(Ordering::Acquire), STATE_STOPPING);
    s.store(STATE_STOPPED, Ordering::Release); // Disconnected

    // Restart must be legal.
    assert!(try_begin_start(&s));
    assert_eq!(s.load(Ordering::Acquire), STATE_STARTING);
}

// Client setup failure: the session stores STOPPED back after emitting
// StartFailed, so the player can retry.
#[test]
fn start_can_be_retried_after_failure() {
    let s = AtomicU8::new(STATE_STOPPED);
    assert!(try_begin_start(&s));
    s.store(STATE_STOPPED, Ordering::Release); // simulate async failure
    assert!(try_begin_start(&s), "retry after failed start must succeed");
    assert_eq!(s.load(Ordering::Acquire), STATE_STARTING);
}

#[test]
fn round_trip_through_session_decisions() {
    let s = AtomicU8::new(STATE_STOPPED);
    assert!(try_begin_start(&s));
    let setup = on_setup(Ok(()));
    assert!(setup.pump);
    assert!(matches!(setup.event, LuaEvent::Ready));
    s.store(setup.next_state, Ordering::Release);
    assert!(is_live(s.load(Ordering::Acquire)));
    assert!(!try_begin_start(&s));
    assert!(try_begin_stop(&s));
    assert!(!is_live(s.load(Ordering::Acquire)));
    let (end_state, end_event) = on_session_end();
    assert!(matches!(end_event, LuaEvent::Stopped));
    s.store(end_state, Ordering::Release);
    assert!(try_begin_start(&s));
}

#[test]
fn failed_setup_reports_reason_and_allows_retry() {
    let s = AtomicU8::new(STATE_STOPPED);
    assert!(try_begin_start(&s));
    let setup = on_setup(Err("connect: no server".to_string()));
    assert!(!setup.pump);
    match setup.event {
        LuaEvent::StartFailed(reason) => assert_eq!(reason, "connect: no server"),
        _ => panic!("expected StartFailed"),
    }
    s.store(setup.next_state, Ordering::Release);
    assert_eq!(s.load(Ordering::Acquire), STATE_STOPPED);
    assert!(try_begin_start(&s));
}

#[test]
fn only_running_is_live() {
    assert!(is_live(STATE_RUNNING));
    assert!(!is_live(STATE_STOPPED));
    assert!(!is_live(STATE_STARTING));
    assert!(!is_live(STATE_STOPPING));
}

#[test]
fn second_start_after_win_is_refused() {
    let s = AtomicU8::new(STATE_STOPPED);
    assert!(try_begin_start(&s));
    assert!(!try_begin_start(&s));
    assert_eq!(s.load(Ordering::Acquire), STATE_STARTING);
    let r = AtomicU8::new(STATE_RUNNING);
    assert!(try_begin_stop(&r));
    assert!(!try_begin_stop(&r));
    assert_eq!(r.load(Ordering::Acquire), STATE_STOPPING);
}


#[test]
fn swaps_are_the_start_and_stop_edges() {
    assert_eq!(start_swap(), (STATE_STOPPED, STATE_STARTING));
    assert_eq!(stop_swap(), (STATE_RUNNING, STATE_STOPPING));
}
