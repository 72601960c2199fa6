use gpu_waiter::supervise::{should_bind_env, SupervisorEvent, SupervisorOutcome, SupervisorState};

#[test]
fn child_exit_ends_loop_and_releases_all_holds() {
    // The child exits before any release event: the loop becomes terminal on
    // that event and teardown hands back every hold, each exactly once.
    let mut s = SupervisorState::new(vec![0u32, 1]);
    assert!(s.is_running());
    s.step(SupervisorEvent::ChildExited(0));
    assert!(!s.is_running());
    assert!(matches!(s.outcome, Some(SupervisorOutcome::ChildExit(0))));
    let released = s.teardown();
    assert_eq!(released, vec![0u32, 1]);
}

#[test]
fn release_event_drops_one_hold() {
    let mut s = SupervisorState::new(vec![0u32, 1, 2]);
    s.step(SupervisorEvent::DeviceUsed(1));
    assert!(s.is_running());
    assert_eq!(s.live, vec![0u32, 2]);
    s.step(SupervisorEvent::ChildExited(3));
    assert_eq!(s.teardown(), vec![0u32, 2]);
}

#[test]
fn closed_monitor_channel_stops_selection() {
    let mut s = SupervisorState::new(vec![0u32]);
    assert!(s.monitor_open);
    s.step(SupervisorEvent::MonitorClosed);
    assert!(!s.monitor_open);
    assert!(s.is_running());
}

#[test]
fn monitor_error_is_terminal() {
    let mut s = SupervisorState::new(vec![0u32, 1]);
    s.step(SupervisorEvent::MonitorFailed);
    assert!(!s.is_running());
    assert!(matches!(s.outcome, Some(SupervisorOutcome::MonitorError)));
    assert_eq!(s.teardown(), vec![0u32, 1]);
}

#[test]
fn cancellation_ends_loop_without_touching_holds() {
    let mut s = SupervisorState::new(vec![0u32, 1]);
    s.step(SupervisorEvent::Cancelled);
    assert!(!s.is_running());
    assert!(matches!(s.outcome, Some(SupervisorOutcome::CancelledRun)));
    assert_eq!(s.teardown(), vec![0u32, 1]);
}

#[test]
fn env_binding_decision() {
    // Bound unless the command used the template, except when forced.
    assert!(should_bind_env(false, false));
    assert!(should_bind_env(false, true));
    assert!(!should_bind_env(true, false));
    assert!(should_bind_env(true, true));
}
