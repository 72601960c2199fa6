use gpu_waiter::schedule::{get_idle_gpu, request_is_satisfiable, scheduler_step, SchedulerDecision};

#[test]
fn idle_filter_keeps_order() {
    let devices = vec![(0u32, true), (1u32, false), (2u32, true), (3u32, true)];
    assert_eq!(get_idle_gpu(&devices), vec![0u32, 2, 3]);
}

#[test]
fn idle_filter_empty_enumeration() {
    let devices: Vec<(u32, bool)> = vec![];
    assert_eq!(get_idle_gpu(&devices), Vec::<u32>::new());
}

#[test]
fn idle_filter_none_idle() {
    let devices = vec![(0u32, false), (1u32, false)];
    assert_eq!(get_idle_gpu(&devices), Vec::<u32>::new());
}

#[test]
fn claims_lowest_identifiers_first() {
    let idle = vec![0u32, 1, 2];
    match scheduler_step(2, &idle, false) {
        SchedulerDecision::Claim(c) => assert_eq!(c, vec![0u32, 1]),
        _ => panic!("expected a claim"),
    }
}

#[test]
fn claims_whole_idle_set_when_exact() {
    let idle = vec![1u32, 3];
    match scheduler_step(2, &idle, false) {
        SchedulerDecision::Claim(c) => assert_eq!(c, vec![1u32, 3]),
        _ => panic!("expected a claim"),
    }
}

#[test]
fn waits_when_too_few_idle() {
    let idle = vec![2u32];
    assert!(matches!(scheduler_step(2, &idle, false), SchedulerDecision::Wait));
}

#[test]
fn stops_on_cancellation_even_with_enough_idle() {
    let idle = vec![0u32, 1, 2];
    assert!(matches!(scheduler_step(2, &idle, true), SchedulerDecision::Stop));
}

#[test]
fn zero_request_claims_nothing() {
    let idle: Vec<u32> = vec![];
    match scheduler_step(0, &idle, false) {
        SchedulerDecision::Claim(c) => assert_eq!(c, Vec::<u32>::new()),
        _ => panic!("expected a claim"),
    }
}

#[test]
fn request_bound_by_device_count() {
    assert!(request_is_satisfiable(1, 4));
    assert!(request_is_satisfiable(4, 4));
    assert!(!request_is_satisfiable(5, 4));
}
