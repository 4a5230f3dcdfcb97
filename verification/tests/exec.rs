//! Splitting a command line, and what becomes of a command.
use qvole::clock::Duration;
use qvole::env::Env;
use qvole::exec::{
    child_error, command_args, command_result, drain_timeout, exit_notice, open_failure,
    split_command, ChildStatus, ExecError,
};
use qvole::pipe::PipeError;

#[test]
fn split_command_empty() {
    assert_eq!(split_command("").unwrap(), Vec::<String>::new());
}

#[test]
fn split_command_simple() {
    assert_eq!(
        split_command("echo hello world").unwrap(),
        vec!["echo", "hello", "world"]
    );
}

#[test]
fn split_command_single_quotes() {
    assert_eq!(
        split_command("echo 'hello world' foo").unwrap(),
        vec!["echo", "hello world", "foo"]
    );
}

#[test]
fn split_command_double_quotes() {
    assert_eq!(
        split_command(r#"echo "hello world" foo"#).unwrap(),
        vec!["echo", "hello world", "foo"]
    );
}

#[test]
fn split_command_unmatched_single_quote() {
    assert!(split_command("echo 'unclosed").is_none());
}

#[test]
fn split_command_unmatched_double_quote() {
    assert!(split_command(r#"echo "unclosed"#).is_none());
}

#[test]
fn split_command_multiple_spaces() {
    assert_eq!(
        split_command("echo   hello    world  ").unwrap(),
        vec!["echo", "hello", "world"]
    );
}

#[test]
fn split_command_tabs() {
    assert_eq!(
        split_command("echo\thello\tworld").unwrap(),
        vec!["echo", "hello", "world"]
    );
}

#[test]
fn split_command_nested_quotes() {
    assert_eq!(
        split_command(r#"echo "it's a test""#).unwrap(),
        vec!["echo", "it's a test"]
    );
}

#[test]
fn split_command_just_whitespace() {
    assert_eq!(split_command("   \t  \t  ").unwrap(), Vec::<String>::new());
}

#[test]
fn split_command_single_word() {
    assert_eq!(split_command("single").unwrap(), vec!["single"]);
}

#[test]
fn split_command_empty_quoted_arg() {
    let cases = [
        ("run '' x", vec!["run", "", "x"]),
        (r##"run "" x"##, vec!["run", "", "x"]),
        ("run ''", vec!["run", ""]),
        ("'' run", vec!["", "run"]),
        ("''", vec![""]),
        ("a ''b c", vec!["a", "b", "c"]),
    ];
    for (input, want) in cases {
        assert_eq!(split_command(input).unwrap(), want, "input: {input:?}");
    }
}

#[test]
fn quoted_arguments_read_back() {
    let args = ["a b", "", "say \"hi\"", "\t", "x"];
    let line: String = args.iter().map(|a| format!(" '{a}'")).collect();
    assert_eq!(split_command(&line).unwrap(), args);
}

#[test]
fn run_exec_command_empty_command() {
    match command_args("") {
        Err(ExecError::Other(msg)) => {
            assert!(msg.contains("empty command"), "unexpected error: {msg}")
        }
        other => panic!("expected 'empty command' error, got {other:?}"),
    }
}

#[test]
fn arguments_of_a_command() {
    assert_eq!(command_args("uptime -p").unwrap(), vec!["uptime", "-p"]);
    for bad in ["", "   ", "echo 'x"] {
        assert_eq!(command_args(bad).unwrap_err().message(), "empty command");
    }
    assert_eq!(command_args("''").unwrap(), vec![""]);
    assert_eq!(split_command("écho \"ü ö\"").unwrap(), vec!["écho", "ü ö"]);
}

#[test]
fn ends_of_a_command() {
    assert!(child_error(&ChildStatus::Exited(0)).is_none());
    let e = child_error(&ChildStatus::Exited(3)).unwrap();
    assert_eq!(exit_notice(&e), "Command exited: exit status 3");
    let e = child_error(&ChildStatus::Signaled).unwrap();
    assert_eq!(e.message(), "signal: killed");
    let e = child_error(&ChildStatus::Unknown("gone".to_string())).unwrap();
    assert_eq!(e.message(), "wait: gone");
    assert_eq!(ExecError::Exit(-7).message(), "exit status -7");
}

#[test]
fn results_of_a_command() {
    assert!(command_result(None, None).is_ok());
    let e = command_result(Some(ExecError::Exit(2)), None).unwrap_err();
    assert_eq!(e.message(), "exit status 2");
    let e = command_result(Some(ExecError::Exit(2)), Some("panic".to_string())).unwrap_err();
    assert_eq!(e.message(), "stdout copy: panic");
}

#[test]
fn failures_around_a_command() {
    assert!(matches!(open_failure(true, "x".to_string()), ExecError::Canceled));
    assert_eq!(open_failure(false, "x".to_string()).message(), "quic: x");
    let e = ExecError::from_pipe(PipeError::Quic("y".to_string()));
    assert_eq!(e.message(), "quic: y");
    assert!(matches!(ExecError::from_pipe(PipeError::Canceled), ExecError::Canceled));
    let e = ExecError::from_pipe(PipeError::Connect("dial: z".to_string()));
    assert_eq!(e.message(), "dial: z");
}

#[test]
fn drain_time() {
    let mut env = Env::new();
    assert_eq!(drain_timeout(&env), Duration::from_millis(5000));
    env.set("QVOLE_EXEC_DRAIN_TIMEOUT_MS", "40");
    assert_eq!(drain_timeout(&env), Duration::from_millis(40));
}
