//! The command line: flags, checks of what they hold, and the help text.
use qvole::cli::{
    code_flag, debug_flag, flag_specs_for, local_flag, relay_flag, stats_flag, usage_text,
    version_line, DEFAULT_RELAY_ADDR, VERSION,
};
use qvole::command::{
    peer_hint_block, resolve_code_from, resolve_or_generate_code_from, resolve_relay,
    tunnel_peer_command, validate_tunnel_config, validate_tunnel_spec, MAX_TUNNEL_SPECS,
};
use qvole::flags::{flagset_usage, parse_flags, FlagSpec, FlagsError};
use qvole::options::{MAX_CODE_LEN, MIN_CODE_LEN};
use qvole::resolver::split_host_port;
use qvole::transport::PROTOCOL_VERSION;

fn specs() -> Vec<FlagSpec> {
    vec![code_flag(), relay_flag(), debug_flag(), stats_flag()]
}

fn args(s: &str) -> Vec<String> {
    s.split_whitespace().map(String::from).collect()
}

#[test]
fn test_parse_basic_flags() {
    let v = parse_flags(&args("--code abc --debug -stats"), &specs()).unwrap();
    assert_eq!(v.string("code"), "abc");
    assert!(v.bool("debug"));
    assert!(v.bool("stats"));
}

#[test]
fn test_parse_equals_forms() {
    let v = parse_flags(&args("-code=abc --debug=true -stats=false"), &specs()).unwrap();
    assert_eq!(v.string("code"), "abc");
    assert!(v.bool("debug"));
    assert!(!v.bool("stats"));
}

#[test]
fn test_parse_double_dash_terminates() {
    let v = parse_flags(&args("--debug -- --code"), &specs()).unwrap();
    assert!(v.bool("debug"));
    assert_eq!(v.string("code"), ""); // "--code" after -- is positional, ignored
}

#[test]
fn test_parse_stops_at_positional() {
    let v = parse_flags(&args("--debug extra --code"), &specs()).unwrap();
    assert!(v.bool("debug"));
    assert_eq!(v.string("code"), "");
}

#[test]
fn test_parse_slice_flag() {
    let specs: Vec<FlagSpec> = vec![local_flag()];
    let v = parse_flags(&args("-L a -L b --L=c"), &specs).unwrap();
    assert_eq!(v.slice("L"), vec!["a", "b", "c"]);
}

#[test]
fn test_parse_unknown_flag() {
    let err = parse_flags(&args("--bogus"), &specs()).unwrap_err();
    assert_eq!(
        err,
        FlagsError::Message("flag provided but not defined: -bogus".into())
    );
}

#[test]
fn test_parse_help_special_case() {
    assert_eq!(
        parse_flags(&args("-h"), &specs()).unwrap_err(),
        FlagsError::Help
    );
    assert_eq!(
        parse_flags(&args("--help"), &specs()).unwrap_err(),
        FlagsError::Help
    );
}

#[test]
fn test_parse_bad_syntax() {
    // "-" alone is positional (parsing stops), not a syntax error.
    for s in ["---", "-=x"] {
        let err = parse_flags(&args(s), &specs()).unwrap_err();
        match err {
            FlagsError::Message(m) if m.contains("bad flag syntax") => {}
            other => panic!("expected bad flag syntax for {s:?}, got {other:?}"),
        }
    }
}

#[test]
fn test_parse_missing_argument() {
    let err = parse_flags(&args("--code"), &specs()).unwrap_err();
    assert_eq!(
        err,
        FlagsError::Message("flag needs an argument: -code".into())
    );
}

#[test]
fn test_parse_bad_bool_value() {
    let err = parse_flags(&args("--debug=maybe"), &specs()).unwrap_err();
    match err {
        FlagsError::Message(m) => {
            assert!(
                m.contains("invalid boolean value \"maybe\" for -debug"),
                "{m}"
            );
            assert!(m.contains("strconv.ParseBool"), "{m}");
        }
        other => panic!("expected message, got {other:?}"),
    }
}

#[test]
fn test_flagset_usage_matches_go_relay() {
    let specs = flag_specs_for("relay");
    let got = flagset_usage("relay", &specs);
    let want = "Usage of relay:\n\
                \x20\x20-debug\n\
                \x20\x20\x20\x20\tVerbose debug logging to stderr\n\
                \x20\x20-listen string\n\
                \x20\x20\x20\x20\tUDP listen address (host:port) (default \":9009\")\n";
    assert_eq!(got, want);
}

#[test]
fn test_flagset_usage_matches_go_tunnel() {
    let specs = flag_specs_for("tunnel");
    let got = flagset_usage("tunnel", &specs);
    let want = "Usage of tunnel:\n\
                \x20\x20-L value\n\
                \x20\x20\x20\x20\tLocal tunnel request ([laddr:]lport:raddr:rport)\n\
                \x20\x20-R value\n\
                \x20\x20\x20\x20\tRemote tunnel request ([raddr:]rport:laddr:lport)\n\
                \x20\x20-a\tAllow ALL peer tunnel requests (not safe)\n\
                \x20\x20-aF value\n\
                \x20\x20\x20\x20\tAllow peer to connect to the addr:port thru you (allow peer's -L; repeatable)\n\
                \x20\x20-aL value\n\
                \x20\x20\x20\x20\tAllow peer to open a listening port on this addr (allow peer's -R; repeatable)\n\
                \x20\x20-code string\n\
                \x20\x20\x20\x20\tConnection code (or $QVOLE_CODE)\n\
                \x20\x20-debug\n\
                \x20\x20\x20\x20\tVerbose debug logging to stderr\n\
                \x20\x20-relay string\n\
                \x20\x20\x20\x20\tRelay address (host:port)\n";
    assert_eq!(got, want);
}

#[test]
fn test_every_flag_appears_in_help() {
    // Assert each flag appears in the help output.
    let usage = usage_text();
    for flag in [
        "pipe", "tunnel", "exec", "relay", "-L ", "-R ", "-aL ", "-aF ", "-a ", "--cmd",
        "--listen", "--code", "--relay", "--debug", "--stats",
    ] {
        assert!(usage.contains(flag), "missing {flag:?} in help:\n{usage}");
    }
}

#[test]
fn test_usage_matches_go_verbatim() {
    let want = r##"qvole 0.2.3: Fast tunnels over QUIC, burrowed through NATs.

Commands:

  pipe [--stats]                  Bidirectional stream between two peers over QUIC

  tunnel                          TCP port tunneling over P2P QUIC
    -L [laddr:]lport:raddr:rport    ...listen on local port, forward to remote addr:port (peer allows with -aF)
    -R [raddr:]rport:laddr:lport    ...listen on remote port, forward to local addr:port (peer allows with -aL)
    -aL addr:port                   ...allow peer to open a listening port on this addr (allow peer's -R)
    -aF addr:port                   ...allow peer to connect to the addr:port thru you (allow peer's -L)
    -a                              ...allow ALL peer tunnel requests (not safe)

  exec                            Execute a command or connect to an exec peer
    --cmd                           ...run command, pipe stdin/stdout to peer

  relay                           Relay server (UDP)
    --listen <addr>                ...listen address (default :9009)

Common Flags (pipe / exec / tunnel):
  --code CODE                     connection code (or $QVOLE_CODE environment var)
  [--relay addr]                  relay server address (host:port)
  [--debug]                       verbose debug logging to stderr
  [--stats]                       log TX/RX throughput to stderr every 2 s (pipe-only)

Examples:

  # Send a file
  alice$ qvole pipe < in                                          # prints connection code, waits for bob
  bob$   QVOLE_CODE=CODE qvole pipe > out                         # bob connects, receiving file from alice

  # Send a directory
  alice$ tar czf - dir/ | qvole pipe                              # alice streams tar of dir/ to bob
  bob$   QVOLE_CODE=CODE qvole pipe | tar xzf -                   # bob receives and extracts

  # Port Forwarding
  alice$ qvole tunnel -L 8080:localhost:80 -R 2222:localhost:22   # alice configures port forwarding requests
  bob$   QVOLE_CODE=CODE qvole tunnel \
           -aL 127.0.0.1:2222 -aF localhost:80                    # bob allowlists what alice may reach
  alice$ curl localhost:8080                                      # alice can now reach bob's :80
  bob$   ssh -p 2222 localhost                                    # bob can now reach alice's sshd

  # Remote command (alice hosts the command, bob connects)
  alice$ qvole exec --cmd "uptime"                                # command runs on alice, bob sees output
  alice$ qvole exec --cmd "script -q bash /dev/null"              # alice gives bob remote shell
  bob$   QVOLE_CODE=CODE qvole exec

"##;
    assert_eq!(usage_text(), want);
}

#[test]
fn test_resolve_code_env_fallback() {
    assert_eq!(resolve_code_from("", Some("abcdefgh")).unwrap(), "abcdefgh");
    assert_eq!(
        resolve_code_from("abcdefgh", Some("zz")).unwrap(),
        "abcdefgh"
    );
    assert_eq!(resolve_code_from("", None).unwrap(), "");
}

#[test]
fn test_resolve_code_length_errors() {
    let err = resolve_code_from("abc", None).unwrap_err();
    assert_eq!(err, "code is too short (3 chars); minimum is 8");
    let long = "x".repeat(MAX_CODE_LEN + 1);
    let err = resolve_code_from(&long, None).unwrap_err();
    assert_eq!(
        err,
        format!("code exceeds maximum length of {MAX_CODE_LEN} characters")
    );
}

#[test]
fn test_resolve_code_boundaries() {
    let min = "x".repeat(MIN_CODE_LEN);
    assert_eq!(resolve_code_from(&min, None).unwrap(), min);
    let max = "x".repeat(MAX_CODE_LEN);
    assert_eq!(resolve_code_from(&max, None).unwrap(), max);
}

#[test]
fn test_slice_flag_empty_default() {
    let v = parse_flags(&args(""), &specs()).unwrap();
    assert!(v.slice("L").is_empty());
}

#[test]
fn test_resolve_relay() {
    assert_eq!(resolve_relay("1.2.3.4:9009"), "1.2.3.4:9009");
    assert_eq!(resolve_relay(""), DEFAULT_RELAY_ADDR);
}

#[test]
fn test_validate_tunnel_config_valid() {
    let l = vec![
        "8080:localhost:80".to_string(),
        ":9090:127.0.0.1:9090".to_string(),
        "[::1]:8081:localhost:81".to_string(),
    ];
    let r = vec!["2222:localhost:22".to_string()];
    let al = vec!["127.0.0.1:2222".to_string()];
    let af = vec!["localhost:80".to_string()];
    assert!(validate_tunnel_config(&l, &r, &al, &af, false).is_ok());
}

#[test]
fn test_validate_tunnel_config_invalid_ports() {
    for spec in [
        "abc:host:80",
        "8080:host:xyz",
        "8080:host:99999",
        "0:host:80",
        "8080:host:0",
    ] {
        let l = vec![spec.to_string()];
        let r = vec![spec.to_string()];
        assert!(
            validate_tunnel_config(&l, &[], &[], &[], false).is_err(),
            "-L {spec}"
        );
        assert!(
            validate_tunnel_config(&[], &r, &[], &[], false).is_err(),
            "-R {spec}"
        );
    }
}

#[test]
fn test_resolve_or_generate_code_format() {
    let fresh = || Ok("4821-amber-otter-quill".to_string());
    let (code, generated) = resolve_or_generate_code_from("", None, fresh()).unwrap();
    assert!(generated);
    assert_eq!(code, "4821-amber-otter-quill");
    let (code, generated) = resolve_or_generate_code_from("abcdefgh", None, fresh()).unwrap();
    assert!(!generated);
    assert_eq!(code, "abcdefgh");
    let err = resolve_or_generate_code_from("", Some(""), Err("no entropy".to_string()));
    assert_eq!(err.unwrap_err(), "generate code: no entropy");
    let given = resolve_or_generate_code_from("", Some("abcdefgh"), Err("no entropy".to_string()));
    assert_eq!(given.unwrap(), ("abcdefgh".to_string(), false));
}

#[test]
fn test_validate_tunnel_spec_ok() {
    assert!(validate_tunnel_spec("8080:localhost:80", "L").is_ok());
    assert!(validate_tunnel_spec("127.0.0.1:2222:localhost:22", "R").is_ok());
}

#[test]
fn test_validate_tunnel_spec_errors() {
    let err = validate_tunnel_spec("8080:localhost:80:1.2.3.4", "L").unwrap_err();
    assert!(err.contains("invalid -L spec"), "{err}");
    let err = validate_tunnel_spec("99999:localhost:80", "L").unwrap_err();
    assert!(err.contains("invalid port"), "{err}");
    let err = validate_tunnel_spec("localhost", "L").unwrap_err();
    assert!(err.contains("expected [laddr:]lport:raddr:rport"), "{err}");
}

#[test]
fn test_validate_tunnel_config_too_many() {
    let mut l: Vec<String> = Vec::new();
    for i in 0..MAX_TUNNEL_SPECS + 1 {
        let port = i + 1000;
        l.push(format!("{port}:localhost:1"));
    }
    let err = validate_tunnel_config(&l, &[], &[], &[], false).unwrap_err();
    assert!(
        err == format!(
            "too many tunnel requests: {} (max {MAX_TUNNEL_SPECS})",
            l.len()
        ),
        "{err}"
    );
}

#[test]
fn test_split_host_port_err_messages() {
    assert_eq!(
        split_host_port("localhost").unwrap_err(),
        "address localhost: missing port in address"
    );
    assert_eq!(
        split_host_port("a:b:c").unwrap_err(),
        "address a:b:c: too many colons in address"
    );
    assert_eq!(
        split_host_port("[::1").unwrap_err(),
        "address [::1: missing ']' in address"
    );
    let (h, p) = split_host_port("[::1]:80").unwrap();
    assert_eq!((h.as_str(), p.as_str()), ("::1", "80"));
    let (h, p) = split_host_port("127.0.0.1:8080").unwrap();
    assert_eq!((h.as_str(), p.as_str()), ("127.0.0.1", "8080"));
}

#[test]
fn test_tunnel_peer_command() {
    let l = vec!["8080:localhost:80".to_string()];
    let r = vec!["127.0.0.1:2222:localhost:22".to_string()];
    let cmd = tunnel_peer_command("code1234", &l, &r).unwrap();
    assert_eq!(
        cmd,
        "QVOLE_CODE=code1234 qvole tunnel -aL 127.0.0.1:2222 -aF localhost:80"
    );
    assert_eq!(tunnel_peer_command("code1234", &[], &[]).unwrap(), "");
}

#[test]
fn test_peer_hint_block() {
    assert_eq!(
        peer_hint_block("QVOLE_CODE=x qvole pipe"),
        "# peer command\nQVOLE_CODE=x qvole pipe\n"
    );
}

#[test]
fn test_version_output() {
    assert_eq!(version_line(VERSION), "qvole 0.2.3 (protocol v0.1, rust port)");
    assert_eq!(PROTOCOL_VERSION, "0.1");
}

#[test]
fn what_follows_two_dashes_is_not_read() {
    let a = parse_flags(&args("--code abc -debug"), &specs()).unwrap();
    for rest in ["--", "-- --code xyz", "-- --no-such-flag -stats"] {
        let b = parse_flags(&args(&format!("--code abc -debug {rest}")), &specs()).unwrap();
        assert_eq!(a.string("code"), b.string("code"));
        assert_eq!(a.bool("debug"), b.bool("debug"));
        assert!(!b.bool("stats"));
    }
    // Behind a flag that wants a text, the dashes are that text.
    assert_eq!(parse_flags(&args("--code -- -debug"), &specs()).unwrap().string("code"), "--");
}
