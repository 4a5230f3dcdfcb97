//! The course of a command that runs for the peer: when it is killed, when its
//! input is given up, and what comes of it.
use vstd::prelude::*;

use crate::exec::{child_error, command_result, ChildStatus, ExecError};

verus! {

/// How far a command has come.
#[derive(Clone, Copy, Debug, PartialEq, Eq, Structural)]
pub enum RunPhase {
    /// It runs.
    Running,
    /// It has ended; what the peer sends is still being taken in.
    Draining,
    /// Both have ended; its output is still on the way.
    Collecting,
    Finished,
}

/// A command that runs for the peer.
#[derive(Debug)]
pub struct ExecRun {
    pub phase: RunPhase,
    /// No more of the peer's data will be taken in.
    pub input_done: bool,
    pub exit: Option<ChildStatus>,
}

/// What happens while a command runs.
#[derive(Debug)]
pub enum ExecEvent {
    /// This side was told to stop, or the connection was lost.
    Stop,
    /// The peer's data has been passed to the command to its end, or was given
    /// up.
    InputDone,
    Exited(ChildStatus),
    /// The peer's data did not end in time after the command.
    DrainExpired,
    /// The output has been passed to the peer, or that failed.
    OutputDone(Option<String>),
}

/// What is to be done about it.
#[derive(Debug)]
pub enum ExecAction {
    Nothing,
    /// Kill the command, and take in no more of the peer's data.
    Kill,
    /// Wait for the end of the peer's data, for a limited time.
    Drain,
    /// Take in no more of the peer's data.
    StopInput,
    /// Wait for the end of the output.
    Collect,
    Finish(Result<(), ExecError>),
}

/// A command that was just started.
pub open spec fn started() -> ExecRun {
    ExecRun { phase: RunPhase::Running, input_done: false, exit: None }
}

/// How it goes on after an event.
pub open spec fn next(run: ExecRun, e: ExecEvent) -> ExecRun {
    match e {
        ExecEvent::InputDone => ExecRun {
            phase: if run.phase == RunPhase::Draining {
                RunPhase::Collecting
            } else {
                run.phase
            },
            input_done: true,
            ..run
        },
        ExecEvent::Exited(s) => if run.phase == RunPhase::Running {
            ExecRun {
                phase: if run.input_done {
                    RunPhase::Collecting
                } else {
                    RunPhase::Draining
                },
                exit: Some(s),
                ..run
            }
        } else {
            run
        },
        ExecEvent::OutputDone(_) => if run.phase == RunPhase::Collecting {
            ExecRun { phase: RunPhase::Finished, ..run }
        } else {
            run
        },
        ExecEvent::Stop => run,
        ExecEvent::DrainExpired => run,
    }
}

/// `r` is what comes of a command that ended with `exit`, and whose output
/// failed to pass with `output`.
pub open spec fn ends_with(exit: ChildStatus, output: Option<String>, r: Result<(), ExecError>)
    -> bool {
    match output {
        Some(m) => r is Err && r->Err_0 is Other && r->Err_0->Other_0@ == "stdout copy: "@ + m@,
        None => match exit {
            ChildStatus::Exited(code) => if code == 0 {
                r is Ok
            } else {
                r == Err::<(), ExecError>(ExecError::Exit(code))
            },
            ChildStatus::Signaled => r == Err::<(), ExecError>(ExecError::Killed),
            ChildStatus::Unknown(m) => r is Err && r->Err_0 is Other && r->Err_0->Other_0@
                == "wait: "@ + m@,
        },
    }
}

/// `a` is what is to be done about an event.
pub open spec fn calls_for(run: ExecRun, e: ExecEvent, a: ExecAction) -> bool {
    match (run.phase, e) {
        (RunPhase::Running, ExecEvent::Stop) => a is Kill,
        (RunPhase::Running, ExecEvent::Exited(_)) => if run.input_done {
            a is Collect
        } else {
            a is Drain
        },
        (RunPhase::Draining, ExecEvent::InputDone) => a is Collect,
        (RunPhase::Draining, ExecEvent::Stop) => a is StopInput,
        (RunPhase::Draining, ExecEvent::DrainExpired) => a is StopInput,
        (RunPhase::Collecting, ExecEvent::OutputDone(output)) => match run.exit {
            Some(exit) => a is Finish && ends_with(exit, output, a->Finish_0),
            None => a is Nothing,
        },
        _ => a is Nothing,
    }
}

impl ExecRun {
    pub fn new() -> (r: ExecRun)
        ensures
            r == started(),
    {
        ExecRun { phase: RunPhase::Running, input_done: false, exit: None }
    }

    pub fn step(&mut self, e: ExecEvent) -> (a: ExecAction)
        ensures
            *final(self) == next(*old(self), e),
            calls_for(*old(self), e, a),
    {
        match e {
            ExecEvent::Stop => match self.phase {
                RunPhase::Running => ExecAction::Kill,
                RunPhase::Draining => ExecAction::StopInput,
                _ => ExecAction::Nothing,
            },
            ExecEvent::DrainExpired => match self.phase {
                RunPhase::Draining => ExecAction::StopInput,
                _ => ExecAction::Nothing,
            },
            ExecEvent::InputDone => {
                self.input_done = true;
                match self.phase {
                    RunPhase::Draining => {
                        self.phase = RunPhase::Collecting;
                        ExecAction::Collect
                    },
                    _ => ExecAction::Nothing,
                }
            },
            ExecEvent::Exited(s) => match self.phase {
                RunPhase::Running => {
                    self.exit = Some(s);
                    if self.input_done {
                        self.phase = RunPhase::Collecting;
                        ExecAction::Collect
                    } else {
                        self.phase = RunPhase::Draining;
                        ExecAction::Drain
                    }
                },
                _ => ExecAction::Nothing,
            },
            ExecEvent::OutputDone(output) => match self.phase {
                RunPhase::Collecting => {
                    self.phase = RunPhase::Finished;
                    match &self.exit {
                        Some(exit) => ExecAction::Finish(
                            command_result(child_error(exit), output),
                        ),
                        None => ExecAction::Nothing,
                    }
                },
                _ => ExecAction::Nothing,
            },
        }
    }
}

/// A command after some events.
pub open spec fn after(events: Seq<ExecEvent>) -> ExecRun
    decreases events.len(),
{
    if events.len() == 0 {
        started()
    } else {
        next(after(events.drop_last()), events.last())
    }
}

/// How the command ended, by the events.
pub open spec fn first_exit(events: Seq<ExecEvent>) -> Option<ChildStatus>
    decreases events.len(),
{
    if events.len() == 0 {
        None
    } else {
        match (first_exit(events.drop_last()), events.last()) {
            (Some(s), _) => Some(s),
            (None, ExecEvent::Exited(s)) => Some(s),
            _ => None,
        }
    }
}

/// The peer's data has ended, by the events.
pub open spec fn input_ended(events: Seq<ExecEvent>) -> bool {
    exists|i: int| 0 <= i < events.len() && #[trigger] events[i] is InputDone
}

/// The output is not reported to have ended.
pub open spec fn output_open(events: Seq<ExecEvent>) -> bool {
    forall|i: int| 0 <= i < events.len() ==> !(#[trigger] events[i] is OutputDone)
}

proof fn lemma_after(events: Seq<ExecEvent>)
    requires
        output_open(events),
    ensures
        after(events).exit == first_exit(events),
        after(events).input_done == input_ended(events),
        after(events).phase == if first_exit(events) is None {
            RunPhase::Running
        } else if input_ended(events) {
            RunPhase::Collecting
        } else {
            RunPhase::Draining
        },
    decreases events.len(),
{
    if events.len() > 0 {
        let before = events.drop_last();
        assert forall|i: int| 0 <= i < before.len() implies !(#[trigger] before[i] is OutputDone) by {
            assert(before[i] == events[i]);
        }
        lemma_after(before);
        assert(!(events[events.len() - 1] is OutputDone));
        if input_ended(before) {
            let i = choose|i: int| 0 <= i < before.len() && #[trigger] before[i] is InputDone;
            assert(events[i] is InputDone);
        }
        if input_ended(events) && !(events.last() is InputDone) {
            let i = choose|i: int| 0 <= i < events.len() && #[trigger] events[i] is InputDone;
            assert(before[i] is InputDone);
        }
        if events.last() is InputDone {
            assert(events[events.len() - 1] is InputDone);
        }
    }
}

/// A command is killed only when this side is told to stop or loses the peer:
/// the end of the peer's data does not touch it.
pub proof fn law_only_a_stop_kills(run: ExecRun, e: ExecEvent, a: ExecAction)
    requires
        calls_for(run, e, a),
        a is Kill,
    ensures
        e is Stop,
{
}

/// What comes of a command is how it ended itself, or that its output did not
/// pass; whatever else happened, and in whatever order, makes no difference.
pub proof fn law_exit_status_survives(
    events: Seq<ExecEvent>,
    output: Option<String>,
    a: ExecAction,
)
    requires
        output_open(events),
        first_exit(events) is Some,
        input_ended(events),
        calls_for(after(events), ExecEvent::OutputDone(output), a),
    ensures
        a is Finish,
        ends_with(first_exit(events)->0, output, a->Finish_0),
{
    lemma_after(events);
}

} // verus!
