//! From arguments to what a command runs with, and to the status of the program.
use qvole::cli::{flag_specs_for, report_flag_error};
use qvole::exec::ExecError;
use qvole::flags::{flagset_usage, parse_bool_value, parse_flags, FlagSpec, FlagType, FlagsError};
use qvole::pipe::PipeError;
use qvole::plan::{
    check_tunnel_plan, command_of, exec_exit, pipe_exit, plan_exec, plan_pipe, plan_relay,
    read_tunnel_flags, tunnel_exit, Command, Refusal,
};
use qvole::tunnel::TunnelError;

fn args(s: &str) -> Vec<String> {
    s.split_whitespace().map(String::from).collect()
}

fn fresh() -> Result<String, String> {
    Ok("1234-fresh-code".to_string())
}

#[test]
fn commands_by_their_first_argument() {
    let cases = [
        ("", Command::Help),
        ("-v", Command::Version),
        ("--version pipe", Command::Version),
        ("relay --listen :1", Command::Relay),
        ("exec --cmd -v", Command::Exec),
        ("tunnel", Command::Tunnel),
        ("pipe", Command::Pipe),
        ("help", Command::Help),
        ("nonsense", Command::Help),
    ];
    for (line, want) in cases {
        assert_eq!(command_of(&args(line)), want, "{line}");
    }
}

#[test]
fn relay_runs_with() {
    let p = plan_relay(&args("--debug")).unwrap();
    assert!(p.debug);
    assert_eq!(p.listen, ":9009");
    assert_eq!(plan_relay(&args("-listen=0.0.0.0:1")).unwrap().listen, "0.0.0.0:1");
    match plan_relay(&args("--bogus")).unwrap_err() {
        Refusal::Flags(r) => {
            assert!(r.usage.is_none());
            assert_eq!(r.error, "flag: flag provided but not defined: -bogus");
        }
        other => panic!("{other:?}"),
    }
}

#[test]
fn help_of_a_command() {
    match plan_relay(&args("-h")).unwrap_err() {
        Refusal::Flags(r) => {
            assert!(r.usage.unwrap().starts_with("Usage of relay:\n  -debug\n"));
            assert_eq!(r.error, "flag: flag: help requested");
        }
        other => panic!("{other:?}"),
    }
    let r = report_flag_error("exec", &FlagsError::Message("m".to_string()));
    assert_eq!(r.error, "flag: m");
}

#[test]
fn pipe_runs_with() {
    let p = plan_pipe(&args("--stats --code abcdefgh"), None, fresh()).unwrap();
    assert!(p.stats && !p.debug);
    assert_eq!(p.relay, "relay.qvole.dev:9009");
    assert_eq!(p.code, "abcdefgh");
    assert!(p.hint.is_none());
    let p = plan_pipe(&args("--relay r:1"), None, fresh()).unwrap();
    assert_eq!(p.relay, "r:1");
    assert_eq!(p.code, "1234-fresh-code");
    assert_eq!(p.hint.unwrap(), "# peer command\nQVOLE_CODE=1234-fresh-code qvole pipe\n");
    let p = plan_pipe(&args(""), Some("from-env"), fresh()).unwrap();
    assert_eq!((p.code.as_str(), p.hint), ("from-env", None));
    match plan_pipe(&args("--code abc"), None, fresh()).unwrap_err() {
        Refusal::Message(m) => assert_eq!(m, "code is too short (3 chars); minimum is 8"),
        other => panic!("{other:?}"),
    }
}

#[test]
fn exec_runs_with() {
    let p = plan_exec(&["--cmd".to_string(), "echo hi".to_string()], None, fresh()).unwrap();
    assert!(p.cmd_mode);
    assert_eq!(p.command, "echo hi");
    assert_eq!(p.hint.unwrap(), "# peer command\nQVOLE_CODE=1234-fresh-code qvole exec\n");
    let p = plan_exec(&args("-code abcdefgh"), None, fresh()).unwrap();
    assert!(!p.cmd_mode);
    match plan_exec(&args(""), None, Err("no entropy".to_string())).unwrap_err() {
        Refusal::Message(m) => assert_eq!(m, "generate code: no entropy"),
        other => panic!("{other:?}"),
    }
}

fn tunnel(line: &str) -> Result<qvole::plan::TunnelPlan, Refusal> {
    let (p, code) = read_tunnel_flags(&args(line))?;
    check_tunnel_plan(p, &code, None, fresh())
}

#[test]
fn tunnel_runs_with() {
    let p = tunnel("-L 8080:localhost:80 -R 127.0.0.1:2222:localhost:22 -aL :1 -aF :2 -a").unwrap();
    assert!(p.allow_all);
    assert_eq!(p.local_tunnels, vec!["8080:localhost:80"]);
    assert_eq!(p.allow_listen, vec![":1"]);
    assert_eq!(p.allow_forward, vec![":2"]);
    assert_eq!(
        p.hint.unwrap(),
        "# peer command\nQVOLE_CODE=1234-fresh-code qvole tunnel -aL 127.0.0.1:2222 -aF localhost:80\n"
    );
    let p = tunnel("-a").unwrap();
    assert_eq!(p.hint.unwrap(), "# peer command\nQVOLE_CODE=1234-fresh-code qvole tunnel\n");
    let p = tunnel("--code abcdefgh -L 1:h:2").unwrap();
    assert!(p.hint.is_none());
}

#[test]
fn repeated_endpoints_are_hinted_once() {
    let p = tunnel("-L 1:h:80 -L 2:h:80 -L 3:h:81").unwrap();
    assert_eq!(
        p.hint.unwrap(),
        "# peer command\nQVOLE_CODE=1234-fresh-code qvole tunnel -aF h:80 -aF h:81\n"
    );
}

#[test]
fn bad_tunnels_are_refused_before_a_code_is_printed() {
    let says = |line: &str| match tunnel(line).unwrap_err() {
        Refusal::Message(m) => m,
        other => panic!("{other:?}"),
    };
    assert_eq!(says("-L 8080:host:99999"), "invalid -L spec \"8080:host:99999\": invalid port \"99999\"");
    assert!(says("-R x").starts_with("invalid -R spec \"x\": expected"));
    assert_eq!(
        says("-aF nonsense"),
        "invalid tunnel allowlist entries (expected addr:port): -aF \"nonsense\""
    );
}

#[test]
fn status_of_the_program() {
    assert_eq!(pipe_exit(&Ok(())).code, 0);
    assert_eq!(pipe_exit(&Err(PipeError::Canceled)).code, 0);
    let e = pipe_exit(&Err(PipeError::Quic("lost".to_string())));
    assert_eq!((e.code, e.error.as_deref()), (1, Some("quic: lost")));
    assert_eq!(tunnel_exit(&Err(TunnelError::Canceled)).code, 0);
    let e = tunnel_exit(&Err(TunnelError::Other("x".to_string())));
    assert_eq!((e.code, e.error.as_deref()), (1, Some("x")));
    assert_eq!(tunnel_exit(&Ok(())).code, 0);
}

#[test]
fn status_of_exec() {
    assert_eq!(exec_exit(&Ok(()), false).code, 0);
    assert_eq!(exec_exit(&Err(ExecError::Exit(42)), false).code, 42);
    assert_eq!(exec_exit(&Err(ExecError::Killed), true).code, 130);
    assert_eq!(exec_exit(&Err(ExecError::Killed), false).code, 0);
    assert_eq!(exec_exit(&Err(ExecError::Canceled), true).code, 0);
    let e = exec_exit(&Err(ExecError::Exit(-1)), false);
    assert_eq!((e.code, e.error.as_deref()), (1, Some("exit status -1")));
    let e = exec_exit(&Err(ExecError::Other("empty command".to_string())), false);
    assert_eq!((e.code, e.error.as_deref()), (1, Some("empty command")));
}

#[test]
fn forms_of_a_flag_agree() {
    let specs = flag_specs_for("exec");
    for line in ["-code=x y", "--code=x y", "-code x y", "--code x y"] {
        let v = parse_flags(&args(line), &specs).unwrap();
        assert_eq!(v.string("code"), "x", "{line}");
    }
    let v = parse_flags(&args("-code -- --cmd z"), &specs).unwrap();
    assert_eq!((v.string("code").as_str(), v.string("cmd").as_str()), ("--", "z"));
    let v = parse_flags(&args("-code=a=b -code="), &specs).unwrap();
    assert_eq!(v.string("code"), "", "the last one counts");
    assert!(flag_specs_for("nothing").is_empty());
}

#[test]
fn truth_values() {
    for t in ["1", "t", "T", "true", "TRUE", "True"] {
        assert_eq!(parse_bool_value(t), Ok(true));
    }
    for f in ["0", "f", "F", "false", "FALSE", "False"] {
        assert_eq!(parse_bool_value(f), Ok(false));
    }
    assert_eq!(
        parse_bool_value("tRue"),
        Err("strconv.ParseBool: parsing \"tRue\": invalid syntax".to_string())
    );
}

#[test]
fn flags_are_described_in_order() {
    let f = |name: &'static str, ty: FlagType| FlagSpec { name, ty, default: None, usage: "u" };
    let specs = vec![f("b", FlagType::Bool), f("a", FlagType::Text), f("B", FlagType::Slice)];
    assert_eq!(
        flagset_usage("x", &specs),
        "Usage of x:\n  -B value\n    \tu\n  -a string\n    \tu\n  -b\tu\n"
    );
}
