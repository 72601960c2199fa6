use gpu_waiter::lockproto::{
    guess_global_runtime_dir, open_or_create_step, AttemptOutcome, OpenDirective, OpenPhase,
    Platform,
};

#[test]
fn runtime_dir_per_platform() {
    assert_eq!(guess_global_runtime_dir(Platform::Windows), "C:\\ProgramData");
    assert_eq!(guess_global_runtime_dir(Platform::Android), "/data/local/tmp");
    assert_eq!(guess_global_runtime_dir(Platform::OtherUnix), "/tmp");
}

#[test]
fn open_success_is_used_in_any_phase() {
    assert!(matches!(
        open_or_create_step(OpenPhase::FirstOpen, AttemptOutcome::Opened),
        OpenDirective::UseFile
    ));
    assert!(matches!(
        open_or_create_step(OpenPhase::CreateNew, AttemptOutcome::Opened),
        OpenDirective::UseFile
    ));
    assert!(matches!(
        open_or_create_step(OpenPhase::ReOpen, AttemptOutcome::Opened),
        OpenDirective::UseFile
    ));
}

#[test]
fn missing_file_leads_to_creation() {
    assert!(matches!(
        open_or_create_step(OpenPhase::FirstOpen, AttemptOutcome::NotFound),
        OpenDirective::Next(OpenPhase::CreateNew)
    ));
}

#[test]
fn creation_race_is_not_an_error() {
    // Another instance created the file between the open and the create:
    // the protocol re-opens instead of failing.
    assert!(matches!(
        open_or_create_step(OpenPhase::CreateNew, AttemptOutcome::AlreadyExists),
        OpenDirective::Next(OpenPhase::ReOpen)
    ));
}

#[test]
fn other_failures_propagate() {
    assert!(matches!(
        open_or_create_step(OpenPhase::FirstOpen, AttemptOutcome::OtherError),
        OpenDirective::Fail
    ));
    assert!(matches!(
        open_or_create_step(OpenPhase::CreateNew, AttemptOutcome::NotFound),
        OpenDirective::Fail
    ));
    assert!(matches!(
        open_or_create_step(OpenPhase::CreateNew, AttemptOutcome::OtherError),
        OpenDirective::Fail
    ));
    assert!(matches!(
        open_or_create_step(OpenPhase::ReOpen, AttemptOutcome::NotFound),
        OpenDirective::Fail
    ));
    assert!(matches!(
        open_or_create_step(OpenPhase::ReOpen, AttemptOutcome::AlreadyExists),
        OpenDirective::Fail
    ));
    assert!(matches!(
        open_or_create_step(OpenPhase::ReOpen, AttemptOutcome::OtherError),
        OpenDirective::Fail
    ));
}

#[test]
fn reopen_after_lost_race_succeeds() {
    let first = open_or_create_step(OpenPhase::FirstOpen, AttemptOutcome::NotFound);
    let OpenDirective::Next(second) = first else {
        panic!("expected a next phase");
    };
    let raced = open_or_create_step(second, AttemptOutcome::AlreadyExists);
    let OpenDirective::Next(third) = raced else {
        panic!("expected a next phase");
    };
    assert!(matches!(
        open_or_create_step(third, AttemptOutcome::Opened),
        OpenDirective::UseFile
    ));
}
