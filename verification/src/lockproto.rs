//! The cross-process lock's decisions: where the lock file lives, and the
//! open-or-create protocol that tolerates racing instances. The file is only
//! a mutex token; its contents are never read or written. The OS-level
//! locking calls themselves are I/O and stay with the caller.

use vstd::prelude::*;

verus! {

/// The platform family the process runs on, as far as the runtime-directory
/// heuristic cares.
#[derive(Clone, Copy, Debug)]
pub enum Platform {
    Windows,
    Android,
    OtherUnix,
}

/// The heuristically chosen shared runtime directory holding the lock file.
/// The directory must pre-exist; the caller treats a missing one as fatal.
pub fn guess_global_runtime_dir(platform: Platform) -> (dir: &'static str)
    ensures
        platform is Windows ==> dir@ == "C:\\ProgramData"@,
        platform is Android ==> dir@ == "/data/local/tmp"@,
        platform is OtherUnix ==> dir@ == "/tmp"@,
{
    match platform {
        Platform::Windows => "C:\\ProgramData",
        Platform::Android => "/data/local/tmp",
        Platform::OtherUnix => "/tmp",
    }
}

/// The attempts of the lock-file opening protocol, in order.
#[derive(Clone, Copy, Debug)]
pub enum OpenPhase {
    /// Try to open the existing lock file.
    FirstOpen,
    /// The file was missing: try to create it atomically.
    CreateNew,
    /// Creation lost the race to a concurrent instance: open what it made.
    ReOpen,
}

/// How one attempt ended, as far as the next decision cares.
#[derive(Clone, Copy, Debug)]
pub enum AttemptOutcome {
    /// The file is open.
    Opened,
    /// The file does not exist.
    NotFound,
    /// Creation failed because the file already exists.
    AlreadyExists,
    /// Any other failure.
    OtherError,
}

/// What to do after an attempt.
#[derive(Clone, Copy, Debug)]
pub enum OpenDirective {
    /// Use the opened file.
    UseFile,
    /// Give up and propagate the failure.
    Fail,
    /// Make this next attempt.
    Next(OpenPhase),
}

/// Position of a phase in the protocol's fixed order.
pub open spec fn phase_rank(p: OpenPhase) -> int {
    match p {
        OpenPhase::FirstOpen => 0,
        OpenPhase::CreateNew => 1,
        OpenPhase::ReOpen => 2,
    }
}

/// The opening protocol's next step: a successful attempt is used whatever
/// the phase; a missing file on the first open leads to creation; a creation
/// race (the file already exists) leads to one final re-open; every other
/// failure is propagated. "Already exists" is never an error here, so racing
/// instances all end up sharing one lock file. The directive always moves
/// forward in the phase order, so the protocol ends after at most three
/// attempts.
pub fn open_or_create_step(phase: OpenPhase, outcome: AttemptOutcome) -> (d: OpenDirective)
    ensures
        outcome is Opened ==> d is UseFile,
        phase is FirstOpen && outcome is NotFound ==> d == OpenDirective::Next(
            OpenPhase::CreateNew,
        ),
        phase is CreateNew && outcome is AlreadyExists ==> d == OpenDirective::Next(
            OpenPhase::ReOpen,
        ),
        !(outcome is Opened) && !(phase is FirstOpen && outcome is NotFound) && !(phase is CreateNew
            && outcome is AlreadyExists) ==> d is Fail,
        d matches OpenDirective::Next(p) ==> phase_rank(p) > phase_rank(phase),
{
    match (phase, outcome) {
        (_, AttemptOutcome::Opened) => OpenDirective::UseFile,
        (OpenPhase::FirstOpen, AttemptOutcome::NotFound) => OpenDirective::Next(
            OpenPhase::CreateNew,
        ),
        (OpenPhase::CreateNew, AttemptOutcome::AlreadyExists) => OpenDirective::Next(
            OpenPhase::ReOpen,
        ),
        _ => OpenDirective::Fail,
    }
}

} // verus!
