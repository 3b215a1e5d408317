use vstd::prelude::*;

verus! {

/// The signal of a termination step: the graceful request, or the forceful
/// kill.
#[derive(Clone, Copy, Debug, PartialEq, Eq, Structural)]
pub enum Signal {
    Term,
    Kill,
}

/// How a signal is sent: directly to the process, or through the platform's
/// command-line `kill` utility.
#[derive(Clone, Copy, Debug, PartialEq, Eq, Structural)]
pub enum Mechanism {
    Direct,
    Command,
}

/// What came of sending a signal.
#[derive(Clone, Copy, Debug, PartialEq, Eq, Structural)]
pub enum KillEvent {
    /// The operating system accepted the signal (or the command reported success).
    Delivered,
    /// The signal was rejected: no such process, or no permission (or the
    /// command reported failure).
    Refused,
    /// The mechanism could not be used: no handle on the process, or the
    /// command could not be run.
    Unavailable,
}

/// Where a termination stands.
#[derive(Clone, Copy, Debug, PartialEq, Eq, Structural)]
pub enum Phase {
    /// The graceful signal is to be sent, or is under way.
    Graceful(Mechanism),
    /// The forceful signal is to be sent, or is under way.
    Forceful(Mechanism),
    /// The termination is over, with its outcome.
    Finished(bool),
}

/// What the caller has to do next.
#[derive(Clone, Copy, Debug, PartialEq, Eq, Structural)]
pub enum KillAction {
    Send { pid: i32, signal: Signal, via: Mechanism },
    Done { success: bool },
}

/// The termination of one process.
#[derive(Clone, Copy, Debug, PartialEq, Eq, Structural)]
pub struct Termination {
    pub pid: i32,
    pub phase: Phase,
}

/// The phase that follows `phase` once the signal it sent came to `event`.
/// The outcome of the graceful signal is ignored, but for an unusable direct
/// mechanism, which hands the whole sequence over to the command-line utility.
/// The outcome is success exactly when the forceful signal was delivered.
pub open spec fn next_phase(phase: Phase, event: KillEvent) -> Phase {
    match phase {
        Phase::Graceful(Mechanism::Direct) => match event {
            KillEvent::Unavailable => Phase::Graceful(Mechanism::Command),
            _ => Phase::Forceful(Mechanism::Direct),
        },
        Phase::Forceful(Mechanism::Direct) => match event {
            KillEvent::Delivered => Phase::Finished(true),
            KillEvent::Refused => Phase::Finished(false),
            KillEvent::Unavailable => Phase::Graceful(Mechanism::Command),
        },
        Phase::Graceful(Mechanism::Command) => Phase::Forceful(Mechanism::Command),
        Phase::Forceful(Mechanism::Command) => Phase::Finished(event == KillEvent::Delivered),
        Phase::Finished(b) => Phase::Finished(b),
    }
}

/// The action that a phase calls for.
pub open spec fn phase_action(pid: i32, phase: Phase) -> KillAction {
    match phase {
        Phase::Graceful(m) => KillAction::Send { pid, signal: Signal::Term, via: m },
        Phase::Forceful(m) => KillAction::Send { pid, signal: Signal::Kill, via: m },
        Phase::Finished(b) => KillAction::Done { success: b },
    }
}

/// The phase after a run of events from `phase`.
pub open spec fn run_phase(phase: Phase, events: Seq<KillEvent>) -> Phase
    decreases events.len(),
{
    if events.len() == 0 {
        phase
    } else {
        next_phase(run_phase(phase, events.drop_last()), events.last())
    }
}

/// Where the termination of `pid` starts: with the graceful signal, sent
/// directly; a `pid` of 0 or below names no single process (to `kill` it
/// names a process group, or every process), so that termination fails at
/// once and nothing is sent.
pub open spec fn initial_phase(pid: i32) -> Phase {
    if pid <= 0 { Phase::Finished(false) } else { Phase::Graceful(Mechanism::Direct) }
}

/// The steps left before a phase is finished, at most.
pub open spec fn steps_left(phase: Phase) -> nat {
    match phase {
        Phase::Graceful(Mechanism::Direct) => 4,
        Phase::Forceful(Mechanism::Direct) => 3,
        Phase::Graceful(Mechanism::Command) => 2,
        Phase::Forceful(Mechanism::Command) => 1,
        Phase::Finished(_) => 0,
    }
}

impl Termination {
    /// Starts the termination of `pid` with the graceful signal, sent
    /// directly; for a `pid` of 0 or below it is over at once, failed.
    pub fn start(pid: i32) -> (r: (Termination, KillAction))
        ensures
            r.0 == (Termination { pid, phase: initial_phase(pid) }),
            r.1 == phase_action(pid, r.0.phase),
            pid <= 0 ==> r.1 == (KillAction::Done { success: false }),
    {
        if pid <= 0 {
            return (Termination { pid, phase: Phase::Finished(false) }, KillAction::Done { success: false });
        }
        let t = Termination { pid, phase: Phase::Graceful(Mechanism::Direct) };
        (t, KillAction::Send { pid, signal: Signal::Term, via: Mechanism::Direct })
    }

    /// Takes in what came of the last signal and says what to do next.
    pub fn step(&self, event: KillEvent) -> (r: (Termination, KillAction))
        ensures
            r.0 == (Termination { pid: self.pid, phase: next_phase(self.phase, event) }),
            r.1 == phase_action(self.pid, r.0.phase),
    {
        let phase = match self.phase {
            Phase::Graceful(Mechanism::Direct) => match event {
                KillEvent::Unavailable => Phase::Graceful(Mechanism::Command),
                _ => Phase::Forceful(Mechanism::Direct),
            },
            Phase::Forceful(Mechanism::Direct) => match event {
                KillEvent::Delivered => Phase::Finished(true),
                KillEvent::Refused => Phase::Finished(false),
                KillEvent::Unavailable => Phase::Graceful(Mechanism::Command),
            },
            Phase::Graceful(Mechanism::Command) => Phase::Forceful(Mechanism::Command),
            Phase::Forceful(Mechanism::Command) => Phase::Finished(
                match event {
                    KillEvent::Delivered => true,
                    _ => false,
                },
            ),
            Phase::Finished(b) => Phase::Finished(b),
        };
        let action = match phase {
            Phase::Graceful(m) => KillAction::Send { pid: self.pid, signal: Signal::Term, via: m },
            Phase::Forceful(m) => KillAction::Send { pid: self.pid, signal: Signal::Kill, via: m },
            Phase::Finished(b) => KillAction::Done { success: b },
        };
        (Termination { pid: self.pid, phase }, action)
    }
}

/// Each event brings an unfinished termination closer to its end.
pub proof fn lemma_step_progress(phase: Phase, event: KillEvent)
    ensures
        !(phase is Finished) ==> steps_left(next_phase(phase, event)) < steps_left(phase),
        phase is Finished ==> next_phase(phase, event) == phase,
{
}

/// A termination never hangs: whatever the events, it is finished after
/// at most four of them, and stays finished.
pub proof fn lemma_termination_ends(events: Seq<KillEvent>)
    requires
        events.len() >= 4,
    ensures
        run_phase(Phase::Graceful(Mechanism::Direct), events) is Finished,
{
    lemma_run_bound(Phase::Graceful(Mechanism::Direct), events);
}

proof fn lemma_run_bound(phase: Phase, events: Seq<KillEvent>)
    ensures
        steps_left(run_phase(phase, events)) <= if events.len() >= steps_left(phase) { 0 } else {
            steps_left(phase) - events.len()
        },
    decreases events.len(),
{
    if events.len() > 0 {
        lemma_run_bound(phase, events.drop_last());
        lemma_step_progress(run_phase(phase, events.drop_last()), events.last());
    }
}

/// A termination succeeds only by a forceful signal that was delivered, and
/// then it succeeds whichever mechanism sent it.
pub proof fn lemma_success_by_kill(phase: Phase, event: KillEvent)
    requires
        !(phase is Finished),
    ensures
        next_phase(phase, event) == Phase::Finished(true) <==> (phase is Forceful && event == KillEvent::Delivered),
{
}

} // verus!
