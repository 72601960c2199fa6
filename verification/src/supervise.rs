//! The command supervisor's control loop, as a state machine from merged
//! events to bookkeeping updates: release events drop holds from the live
//! claim set, a closed monitor channel stops being selected on, and a child
//! exit, a monitor error or cancellation ends the loop. Cancellation never
//! forces the child to terminate; whatever holds remain are released exactly
//! once at teardown.

use vstd::prelude::*;

verus! {

/// One event merged by the supervisor's select loop.
pub enum SupervisorEvent {
    /// The monitor reports that real work took this resource over.
    DeviceUsed(u32),
    /// The monitor's channel is closed or exhausted: stop selecting on it.
    MonitorClosed,
    /// The monitor reported a backend error: terminal.
    MonitorFailed,
    /// The child exited with this status: terminal.
    ChildExited(i32),
    /// The cancellation flag was observed set: terminal, the child is left
    /// to exit on its own.
    Cancelled,
}

/// Why the supervisor's loop ended.
pub enum SupervisorOutcome {
    /// The child exited with this status.
    ChildExit(i32),
    /// The monitor reported a backend error.
    MonitorError,
    /// The cancellation flag was set.
    CancelledRun,
}

/// The supervisor's bookkeeping: the claimed resources whose holds are still
/// live, whether the monitor channel is still selected on, and the outcome
/// once the loop has ended.
pub struct SupervisorState {
    pub live: Vec<u32>,
    pub monitor_open: bool,
    pub outcome: Option<SupervisorOutcome>,
}

/// The transition of the supervisor's bookkeeping (live identifiers, whether
/// the monitor channel is still selected on, the outcome if any) on one
/// merged event.
pub open spec fn step_model(
    m: (Seq<u32>, bool, Option<SupervisorOutcome>),
    event: SupervisorEvent,
) -> (Seq<u32>, bool, Option<SupervisorOutcome>) {
    match event {
        SupervisorEvent::DeviceUsed(id) => (m.0.remove_value(id), m.1, m.2),
        SupervisorEvent::MonitorClosed => (m.0, false, m.2),
        SupervisorEvent::MonitorFailed => (m.0, m.1, Some(SupervisorOutcome::MonitorError)),
        SupervisorEvent::ChildExited(st) => (m.0, m.1, Some(SupervisorOutcome::ChildExit(st))),
        SupervisorEvent::Cancelled => (m.0, m.1, Some(SupervisorOutcome::CancelledRun)),
    }
}

impl SupervisorState {
    /// Well-formed: no hold is recorded twice.
    pub open spec fn wf(&self) -> bool {
        self.live@.no_duplicates()
    }

    /// The state as plain values.
    pub open spec fn model(&self) -> (Seq<u32>, bool, Option<SupervisorOutcome>) {
        (self.live@, self.monitor_open, self.outcome)
    }

    /// Whether the loop is still running.
    pub open spec fn running(&self) -> bool {
        self.outcome is None
    }

    /// Starts supervising a freshly claimed set, with the monitor channel
    /// open and no outcome yet.
    pub fn new(claim: Vec<u32>) -> (s: SupervisorState)
        requires
            claim@.no_duplicates(),
        ensures
            s.wf(),
            s.model() == (claim@, true, None::<SupervisorOutcome>),
    {
        SupervisorState { live: claim, monitor_open: true, outcome: None }
    }

    /// Whether the loop keeps going.
    pub fn is_running(&self) -> (b: bool)
        ensures
            b == self.running(),
    {
        self.outcome.is_none()
    }

    /// Applies one merged event to the bookkeeping.
    pub fn step(&mut self, event: SupervisorEvent)
        requires
            old(self).wf(),
            old(self).running(),
        ensures
            final(self).wf(),
            final(self).model() == step_model(old(self).model(), event),
    {
        match event {
            SupervisorEvent::DeviceUsed(id) => {
                let _ = crate::monitor::remove_id(&mut self.live, id);
                proof {
                    crate::monitor::lemma_remove_value_props(old(self).live@, id);
                    old(self).live@.index_of_first_ensures(id);
                }
            },
            SupervisorEvent::MonitorClosed => {
                self.monitor_open = false;
            },
            SupervisorEvent::MonitorFailed => {
                self.outcome = Some(SupervisorOutcome::MonitorError);
            },
            SupervisorEvent::ChildExited(st) => {
                self.outcome = Some(SupervisorOutcome::ChildExit(st));
            },
            SupervisorEvent::Cancelled => {
                self.outcome = Some(SupervisorOutcome::CancelledRun);
            },
        }
    }

    /// Ends the run: every hold still live is handed back for release, each
    /// exactly once (the list is duplicate-free whenever the state is
    /// well-formed).
    pub fn teardown(self) -> (released: Vec<u32>)
        ensures
            released@ == self.live@,
    {
        self.live
    }
}

/// Law: if the child exits while the loop still runs, the loop ends on that
/// event, the live holds are untouched by it, and teardown then releases each
/// of them exactly once. If instead cancellation is observed, the loop ends
/// the same way without any action against the child: the live set, and so
/// the child's resources, are not touched by the event either.
pub proof fn lemma_terminal_events_release_once(
    m: (Seq<u32>, bool, Option<SupervisorOutcome>),
    st: i32,
)
    requires
        m.2 is None,
        m.0.no_duplicates(),
    ensures
        step_model(m, SupervisorEvent::ChildExited(st)).2 == Some(SupervisorOutcome::ChildExit(st)),
        step_model(m, SupervisorEvent::ChildExited(st)).0 == m.0,
        step_model(m, SupervisorEvent::ChildExited(st)).0.no_duplicates(),
        step_model(m, SupervisorEvent::Cancelled).2 == Some(SupervisorOutcome::CancelledRun),
        step_model(m, SupervisorEvent::Cancelled).0 == m.0,
{
}

/// Whether the environment binding naming the claimed resources is applied
/// to the child: always when forced, otherwise exactly when no argument of
/// the command contained a template marker.
pub fn should_bind_env(has_template: bool, force_env: bool) -> (b: bool)
    ensures
        b == (!has_template || force_env),
{
    !has_template || force_env
}

} // verus!
