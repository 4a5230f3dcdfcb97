use qvole::exec::{ChildStatus, ExecError};
use qvole::exec_run::{ExecAction, ExecEvent, ExecRun, RunPhase};

#[test]
fn run_exec_command_stdin_eof_preserves_exit_code() {
    let mut run = ExecRun::new();
    assert!(matches!(run.step(ExecEvent::InputDone), ExecAction::Nothing));
    assert_eq!(run.phase, RunPhase::Running);
    assert!(matches!(
        run.step(ExecEvent::Exited(ChildStatus::Exited(3))),
        ExecAction::Collect
    ));
    assert!(matches!(
        run.step(ExecEvent::OutputDone(None)),
        ExecAction::Finish(Err(ExecError::Exit(3)))
    ));
    assert_eq!(run.phase, RunPhase::Finished);
}

#[test]
fn a_stop_kills_once_it_runs_and_drains_after() {
    let mut run = ExecRun::new();
    assert!(matches!(run.step(ExecEvent::Stop), ExecAction::Kill));
    assert!(matches!(
        run.step(ExecEvent::Exited(ChildStatus::Signaled)),
        ExecAction::Drain
    ));
    assert!(matches!(run.step(ExecEvent::Stop), ExecAction::StopInput));
    assert!(matches!(run.step(ExecEvent::InputDone), ExecAction::Collect));
    assert!(matches!(
        run.step(ExecEvent::OutputDone(None)),
        ExecAction::Finish(Err(ExecError::Killed))
    ));
}

#[test]
fn the_drain_has_an_end() {
    let mut run = ExecRun::new();
    assert!(matches!(
        run.step(ExecEvent::Exited(ChildStatus::Exited(0))),
        ExecAction::Drain
    ));
    assert!(matches!(run.step(ExecEvent::DrainExpired), ExecAction::StopInput));
    assert!(matches!(run.step(ExecEvent::InputDone), ExecAction::Collect));
    assert!(matches!(
        run.step(ExecEvent::OutputDone(None)),
        ExecAction::Finish(Ok(()))
    ));
}

#[test]
fn lost_output_is_a_failure() {
    let mut run = ExecRun::new();
    run.step(ExecEvent::Exited(ChildStatus::Exited(0)));
    run.step(ExecEvent::InputDone);
    match run.step(ExecEvent::OutputDone(Some("gone".to_string()))) {
        ExecAction::Finish(Err(e)) => assert_eq!(e.message(), "stdout copy: gone"),
        other => panic!("{other:?}"),
    }
}
