//! Pure visibility/quit policy for the companion shell; OS registration and
//! worker joins supply the facts.
use vstd::prelude::*;

verus! {

/// Companion lifetime, separate from any browser transport.
#[derive(Clone, Copy, Debug, PartialEq, Eq, Structural)]
pub enum Phase {
    /// No engine may start before tray registration is confirmed.
    WaitingForTray,
    /// An owned worker is starting.
    Starting,
    /// An owned engine is running.
    Running,
    /// Quit has been requested; the worker must still be joined.
    Stopping,
    /// A failure is visible and requires deliberate acknowledgement.
    Failed,
    /// All owned workers have been joined; the shell may close.
    Stopped,
}

/// One fact reported to the lifecycle model.
pub enum LifecycleEvent {
    /// Tray registration was observed as confirmed or lost.
    TrayObserved(bool),
    /// The owned worker reported startup.
    Started,
    /// The user asked to quit.
    Quit,
    /// The owned worker was joined, successfully or not.
    Joined(bool),
}

/// Model facts, not a claim of OS visibility. No URLs, paths or task data.
#[derive(Debug)]
pub struct Lifecycle {
    phase: Phase,
    tray_confirmed: bool,
    failed: bool,
}

/// The plain reading of a lifecycle: its phase, whether the tray was
/// confirmed, and whether a failure was seen.
pub struct LifecycleState {
    pub phase: Phase,
    pub tray_confirmed: bool,
    pub failed: bool,
}

impl View for Lifecycle {
    type V = LifecycleState;

    closed spec fn view(&self) -> LifecycleState {
        LifecycleState { phase: self.phase, tray_confirmed: self.tray_confirmed, failed: self.failed }
    }
}

impl Default for Lifecycle {
    /// Starts waiting for tray registration, with nothing confirmed or failed.
    fn default() -> (state: Self)
        ensures
            state@ == (LifecycleState { phase: Phase::WaitingForTray, tray_confirmed: false, failed: false }),
    {
        Lifecycle { phase: Phase::WaitingForTray, tray_confirmed: false, failed: false }
    }
}

impl LifecycleState {
    /// The state reached from `self` when `event` is reported.
    pub open spec fn next(self, event: LifecycleEvent) -> LifecycleState {
        match event {
            LifecycleEvent::TrayObserved(confirmed) => LifecycleState {
                phase: if confirmed && self.phase == Phase::WaitingForTray {
                    Phase::Starting
                } else {
                    self.phase
                },
                tray_confirmed: confirmed,
                failed: self.failed,
            },
            LifecycleEvent::Started => LifecycleState {
                phase: if self.phase == Phase::Starting { Phase::Running } else { self.phase },
                ..self
            },
            LifecycleEvent::Quit => LifecycleState {
                phase: if self.phase != Phase::Stopped { Phase::Stopping } else { self.phase },
                ..self
            },
            LifecycleEvent::Joined(successful) => if successful && self.phase == Phase::Stopping {
                LifecycleState { phase: Phase::Stopped, ..self }
            } else {
                LifecycleState { phase: Phase::Failed, failed: true, ..self }
            },
        }
    }

    /// Whether hiding the status window leaves a confirmed tray surface.
    pub open spec fn hideable(self) -> bool {
        self.tray_confirmed && self.phase == Phase::Running
    }

    /// The fixed user-facing text for this state.
    pub open spec fn status_text(self) -> Seq<char> {
        match self.phase {
            Phase::WaitingForTray => "Tray unavailable. The engine has not started."@,
            Phase::Starting => "Starting the isolated preview engine..."@,
            Phase::Running => if !self.tray_confirmed {
                "Tray unavailable. This status window stays visible."@
            } else {
                "Engine running. Firefox bridge is not connected in this preview."@
            },
            Phase::Stopping => "Stopping and joining engine work. Please wait..."@,
            Phase::Failed => "The preview failed. Private state is retained; you may quit."@,
            Phase::Stopped => "Engine joined. Preview stopped."@,
        }
    }
}

impl Lifecycle {

    /// Records the actual registration/confirmation result; returns true only
    /// once when an engine is now allowed to start.
    pub fn tray_observed(&mut self, confirmed: bool) -> (may_start: bool)
        ensures
            final(self)@ == old(self)@.next(LifecycleEvent::TrayObserved(confirmed)),
            may_start == (confirmed && old(self)@.phase == Phase::WaitingForTray),
    {
        self.tray_confirmed = confirmed;
        if confirmed && self.phase == Phase::WaitingForTray {
            self.phase = Phase::Starting;
            return true;
        }
        false
    }

    /// Records worker startup, but never reverses a pending Quit.
    pub fn started(&mut self)
        ensures
            final(self)@ == old(self)@.next(LifecycleEvent::Started),
    {
        if self.phase == Phase::Starting {
            self.phase = Phase::Running;
        }
    }

    /// Requests shutdown; never implies that joining is complete.
    pub fn quit(&mut self)
        ensures
            final(self)@ == old(self)@.next(LifecycleEvent::Quit),
    {
        if self.phase != Phase::Stopped {
            self.phase = Phase::Stopping;
        }
    }

    /// Records a completed join, not merely a sent cancellation request.
    pub fn joined(&mut self, successful: bool)
        ensures
            final(self)@ == old(self)@.next(LifecycleEvent::Joined(successful)),
    {
        if successful && self.phase == Phase::Stopping {
            self.phase = Phase::Stopped;
        } else {
            self.phase = Phase::Failed;
            self.failed = true;
        }
    }

    /// Whether hiding the status window still leaves a confirmed tray surface.
    pub fn can_hide(&self) -> (hideable: bool)
        ensures
            hideable == self@.hideable(),
    {
        self.tray_confirmed && self.phase == Phase::Running
    }

    /// Current lifetime phase.
    pub fn phase(&self) -> (phase: Phase)
        ensures
            phase == self@.phase,
    {
        self.phase
    }

    /// Failure is sticky even after the user acknowledges it and quits.
    pub fn failed(&self) -> (failed: bool)
        ensures
            failed == self@.failed,
    {
        self.failed
    }

    /// Fixed user-facing text; never derived from error strings or input data.
    pub fn status(&self) -> (text: &'static str)
        ensures
            text@ == self@.status_text(),
    {
        match self.phase {
            Phase::WaitingForTray => "Tray unavailable. The engine has not started.",
            Phase::Starting => "Starting the isolated preview engine...",
            Phase::Running => if !self.tray_confirmed {
                "Tray unavailable. This status window stays visible."
            } else {
                "Engine running. Firefox bridge is not connected in this preview."
            },
            Phase::Stopping => "Stopping and joining engine work. Please wait...",
            Phase::Failed => "The preview failed. Private state is retained; you may quit.",
            Phase::Stopped => "Engine joined. Preview stopped.",
        }
    }
}

/// Once a tray confirmation has started the engine, no later fact returns the
/// companion to waiting for the tray, so a second owner is never started.
pub proof fn lemma_start_is_granted_at_most_once(state: LifecycleState, event: LifecycleEvent)
    requires
        state.phase != Phase::WaitingForTray,
    ensures
        state.next(event).phase != Phase::WaitingForTray,
{
}

/// A failure stays visible: every later fact keeps the failure flag set.
pub proof fn lemma_failure_is_sticky(state: LifecycleState, event: LifecycleEvent)
    requires
        state.failed,
    ensures
        state.next(event).failed,
{
}

/// Quit is sticky: once stopping, only a join can leave that phase, and only a
/// successful join reaches `Stopped`; startup never reverses it.
pub proof fn lemma_quit_is_sticky_until_joined(state: LifecycleState, event: LifecycleEvent)
    requires
        state.phase == Phase::Stopping,
    ensures
        state.next(event).phase == Phase::Stopping
            || event is Joined,
        state.next(event).phase == Phase::Stopped <==> event == LifecycleEvent::Joined(true),
{
}

/// The companion reaches `Stopped` only through a successful join of a
/// requested quit.
pub proof fn lemma_stopped_requires_joined_quit(state: LifecycleState, event: LifecycleEvent)
    requires
        state.phase != Phase::Stopped,
        state.next(event).phase == Phase::Stopped,
    ensures
        state.phase == Phase::Stopping,
        event == LifecycleEvent::Joined(true),
{
}

/// Hiding is only ever offered while the engine runs behind a confirmed tray.
pub proof fn lemma_hide_requires_confirmed_running_tray(state: LifecycleState)
    requires
        state.hideable(),
    ensures
        state.tray_confirmed,
        state.phase == Phase::Running,
{
}

} // verus!
