//! The command line: help, version, and the flags of each command.
use vstd::prelude::*;

use crate::flags::{same_text, FlagSpec, FlagType, FlagsError, FlagsErrorView};
use crate::text::join2;

verus! {

/// Version of the program, where no release sets another.
pub const VERSION: &'static str = "0.2.3";

pub const DEFAULT_RELAY_ADDR: &'static str = "relay.qvole.dev:9009";

pub const DEFAULT_LISTEN_ADDR: &'static str = ":9009";

/// The help text behind the version.
pub const USAGE_BODY: &'static str = ": Fast tunnels over QUIC, burrowed through NATs.

Commands:

  pipe [--stats]                  Bidirectional stream between two peers over QUIC

  tunnel                          TCP port tunneling over P2P QUIC
    -L [laddr:]lport:raddr:rport    ...listen on local port, forward to remote addr:port (peer allows with -aF)
    -R [raddr:]rport:laddr:lport    ...listen on remote port, forward to local addr:port (peer allows with -aL)
    -aL addr:port                   ...allow peer to open a listening port on this addr (allow peer's -R)
    -aF addr:port                   ...allow peer to connect to the addr:port thru you (allow peer's -L)
    -a                              ...allow ALL peer tunnel requests (not safe)

  exec                            Execute a command or connect to an exec peer
    --cmd                           ...run command, pipe stdin/stdout to peer

  relay                           Relay server (UDP)
    --listen <addr>                ...listen address (default :9009)

Common Flags (pipe / exec / tunnel):
  --code CODE                     connection code (or $QVOLE_CODE environment var)
  [--relay addr]                  relay server address (host:port)
  [--debug]                       verbose debug logging to stderr
  [--stats]                       log TX/RX throughput to stderr every 2 s (pipe-only)

Examples:

  # Send a file
  alice$ qvole pipe < in                                          # prints connection code, waits for bob
  bob$   QVOLE_CODE=CODE qvole pipe > out                         # bob connects, receiving file from alice

  # Send a directory
  alice$ tar czf - dir/ | qvole pipe                              # alice streams tar of dir/ to bob
  bob$   QVOLE_CODE=CODE qvole pipe | tar xzf -                   # bob receives and extracts

  # Port Forwarding
  alice$ qvole tunnel -L 8080:localhost:80 -R 2222:localhost:22   # alice configures port forwarding requests
  bob$   QVOLE_CODE=CODE qvole tunnel \\
           -aL 127.0.0.1:2222 -aF localhost:80                    # bob allowlists what alice may reach
  alice$ curl localhost:8080                                      # alice can now reach bob's :80
  bob$   ssh -p 2222 localhost                                    # bob can now reach alice's sshd

  # Remote command (alice hosts the command, bob connects)
  alice$ qvole exec --cmd \"uptime\"                                # command runs on alice, bob sees output
  alice$ qvole exec --cmd \"script -q bash /dev/null\"              # alice gives bob remote shell
  bob$   QVOLE_CODE=CODE qvole exec

";

/// The help text of a version of the program.
pub open spec fn spec_usage_text(version: Seq<char>) -> Seq<char> {
    "qvole "@ + version + USAGE_BODY@
}

/// The help text of the version `version`.
pub fn usage_text_for(version: &str) -> (s: String)
    ensures
        s@ == spec_usage_text(version@),
{
    let mut s = join2("qvole ", version);
    s.push_str(USAGE_BODY);
    s
}

/// The help text.
pub fn usage_text() -> (s: String)
    ensures
        s@ == spec_usage_text(VERSION@),
{
    usage_text_for(VERSION)
}

/// The line that names a version of the program and of the protocol.
pub fn version_line(version: &str) -> (s: String)
    ensures
        s@ == "qvole "@ + version@ + " (protocol v"@ + crate::transport::PROTOCOL_VERSION@
            + ", rust port)"@,
{
    let mut s = join2("qvole ", version);
    s.push_str(" (protocol v");
    s.push_str(crate::transport::PROTOCOL_VERSION);
    s.push_str(", rust port)");
    s
}

/// The flag `-relay`.
pub open spec fn spec_relay_flag() -> FlagSpec {
    FlagSpec {
        name: "relay",
        ty: FlagType::Text,
        default: None,
        usage: "Relay address (host:port)",
    }
}

pub fn relay_flag() -> (f: FlagSpec)
    ensures
        f == spec_relay_flag(),
{
    FlagSpec {
        name: "relay",
        ty: FlagType::Text,
        default: None,
        usage: "Relay address (host:port)",
    }
}

/// The flag `-debug`.
pub open spec fn spec_debug_flag() -> FlagSpec {
    FlagSpec {
        name: "debug",
        ty: FlagType::Bool,
        default: None,
        usage: "Verbose debug logging to stderr",
    }
}

pub fn debug_flag() -> (f: FlagSpec)
    ensures
        f == spec_debug_flag(),
{
    FlagSpec {
        name: "debug",
        ty: FlagType::Bool,
        default: None,
        usage: "Verbose debug logging to stderr",
    }
}

/// The flag `-code`.
pub open spec fn spec_code_flag() -> FlagSpec {
    FlagSpec {
        name: "code",
        ty: FlagType::Text,
        default: None,
        usage: "Connection code (or $QVOLE_CODE)",
    }
}

pub fn code_flag() -> (f: FlagSpec)
    ensures
        f == spec_code_flag(),
{
    FlagSpec {
        name: "code",
        ty: FlagType::Text,
        default: None,
        usage: "Connection code (or $QVOLE_CODE)",
    }
}

/// The flag `-listen`.
pub open spec fn spec_listen_flag() -> FlagSpec {
    FlagSpec {
        name: "listen",
        ty: FlagType::Text,
        default: Some(DEFAULT_LISTEN_ADDR),
        usage: "UDP listen address (host:port)",
    }
}

pub fn listen_flag() -> (f: FlagSpec)
    ensures
        f == spec_listen_flag(),
{
    FlagSpec {
        name: "listen",
        ty: FlagType::Text,
        default: Some(DEFAULT_LISTEN_ADDR),
        usage: "UDP listen address (host:port)",
    }
}

/// The flag `-stats`.
pub open spec fn spec_stats_flag() -> FlagSpec {
    FlagSpec {
        name: "stats",
        ty: FlagType::Bool,
        default: None,
        usage: "Log transfer statistics to stderr",
    }
}

pub fn stats_flag() -> (f: FlagSpec)
    ensures
        f == spec_stats_flag(),
{
    FlagSpec {
        name: "stats",
        ty: FlagType::Bool,
        default: None,
        usage: "Log transfer statistics to stderr",
    }
}

/// The flag `-cmd`.
pub open spec fn spec_cmd_flag() -> FlagSpec {
    FlagSpec {
        name: "cmd",
        ty: FlagType::Text,
        default: None,
        usage: "Run command",
    }
}

pub fn cmd_flag() -> (f: FlagSpec)
    ensures
        f == spec_cmd_flag(),
{
    FlagSpec {
        name: "cmd",
        ty: FlagType::Text,
        default: None,
        usage: "Run command",
    }
}

/// The flag `-a`.
pub open spec fn spec_all_flag() -> FlagSpec {
    FlagSpec {
        name: "a",
        ty: FlagType::Bool,
        default: None,
        usage: "Allow ALL peer tunnel requests (not safe)",
    }
}

pub fn all_flag() -> (f: FlagSpec)
    ensures
        f == spec_all_flag(),
{
    FlagSpec {
        name: "a",
        ty: FlagType::Bool,
        default: None,
        usage: "Allow ALL peer tunnel requests (not safe)",
    }
}

/// The flag `-L`.
pub open spec fn spec_local_flag() -> FlagSpec {
    FlagSpec {
        name: "L",
        ty: FlagType::Slice,
        default: None,
        usage: "Local tunnel request ([laddr:]lport:raddr:rport)",
    }
}

pub fn local_flag() -> (f: FlagSpec)
    ensures
        f == spec_local_flag(),
{
    FlagSpec {
        name: "L",
        ty: FlagType::Slice,
        default: None,
        usage: "Local tunnel request ([laddr:]lport:raddr:rport)",
    }
}

/// The flag `-R`.
pub open spec fn spec_remote_flag() -> FlagSpec {
    FlagSpec {
        name: "R",
        ty: FlagType::Slice,
        default: None,
        usage: "Remote tunnel request ([raddr:]rport:laddr:lport)",
    }
}

pub fn remote_flag() -> (f: FlagSpec)
    ensures
        f == spec_remote_flag(),
{
    FlagSpec {
        name: "R",
        ty: FlagType::Slice,
        default: None,
        usage: "Remote tunnel request ([raddr:]rport:laddr:lport)",
    }
}

/// The flag `-aL`.
pub open spec fn spec_allow_listen_flag() -> FlagSpec {
    FlagSpec {
        name: "aL",
        ty: FlagType::Slice,
        default: None,
        usage: "Allow peer to open a listening port on this addr (allow peer's -R; repeatable)",
    }
}

pub fn allow_listen_flag() -> (f: FlagSpec)
    ensures
        f == spec_allow_listen_flag(),
{
    FlagSpec {
        name: "aL",
        ty: FlagType::Slice,
        default: None,
        usage: "Allow peer to open a listening port on this addr (allow peer's -R; repeatable)",
    }
}

/// The flag `-aF`.
pub open spec fn spec_allow_forward_flag() -> FlagSpec {
    FlagSpec {
        name: "aF",
        ty: FlagType::Slice,
        default: None,
        usage: "Allow peer to connect to the addr:port thru you (allow peer's -L; repeatable)",
    }
}

pub fn allow_forward_flag() -> (f: FlagSpec)
    ensures
        f == spec_allow_forward_flag(),
{
    FlagSpec {
        name: "aF",
        ty: FlagType::Slice,
        default: None,
        usage: "Allow peer to connect to the addr:port thru you (allow peer's -L; repeatable)",
    }
}

/// The flags of `relay`.
pub open spec fn spec_relay_flags() -> Seq<FlagSpec> {
    seq![spec_listen_flag(), spec_debug_flag()]
}

/// The flags of `pipe`.
pub open spec fn spec_pipe_flags() -> Seq<FlagSpec> {
    seq![spec_code_flag(), spec_relay_flag(), spec_debug_flag(), spec_stats_flag()]
}

/// The flags of `exec`.
pub open spec fn spec_exec_flags() -> Seq<FlagSpec> {
    seq![spec_code_flag(), spec_relay_flag(), spec_debug_flag(), spec_cmd_flag()]
}

/// The flags of `tunnel`.
pub open spec fn spec_tunnel_flags() -> Seq<FlagSpec> {
    seq![spec_code_flag(), spec_relay_flag(), spec_debug_flag(), spec_all_flag(), spec_local_flag(), spec_remote_flag(), spec_allow_listen_flag(), spec_allow_forward_flag()]
}

/// The flags of a command; `pipe` goes by the name `qvole`.
pub open spec fn spec_flags_for(set_name: Seq<char>) -> Seq<FlagSpec> {
    if set_name == "relay"@ {
        spec_relay_flags()
    } else if set_name == "qvole"@ {
        spec_pipe_flags()
    } else if set_name == "exec"@ {
        spec_exec_flags()
    } else if set_name == "tunnel"@ {
        spec_tunnel_flags()
    } else {
        Seq::empty()
    }
}

/// Each name stands for its own set of flags.
pub proof fn lemma_flag_sets()
    ensures
        spec_flags_for("relay"@) == spec_relay_flags(),
        spec_flags_for("qvole"@) == spec_pipe_flags(),
        spec_flags_for("exec"@) == spec_exec_flags(),
        spec_flags_for("tunnel"@) == spec_tunnel_flags(),
{
    reveal_strlit("relay");
    reveal_strlit("qvole");
    reveal_strlit("exec");
    reveal_strlit("tunnel");
    assert("relay"@[0] != "qvole"@[0]);
    assert("relay"@.len() == 5 && "qvole"@.len() == 5);
    assert("exec"@.len() == 4 && "tunnel"@.len() == 6);
}

/// The flags of the command `set_name`.
pub fn flag_specs_for(set_name: &str) -> (r: Vec<FlagSpec>)
    ensures
        r@ == spec_flags_for(set_name@),
{
    if same_text(set_name, "relay") {
        let r: Vec<FlagSpec> = vec![listen_flag(), debug_flag()];
        assert(r@ =~= spec_relay_flags());
        r
    } else if same_text(set_name, "qvole") {
        let r: Vec<FlagSpec> = vec![code_flag(), relay_flag(), debug_flag(), stats_flag()];
        assert(r@ =~= spec_pipe_flags());
        r
    } else if same_text(set_name, "exec") {
        let r: Vec<FlagSpec> = vec![code_flag(), relay_flag(), debug_flag(), cmd_flag()];
        assert(r@ =~= spec_exec_flags());
        r
    } else if same_text(set_name, "tunnel") {
        let r: Vec<FlagSpec> = vec![code_flag(), relay_flag(), debug_flag(), all_flag(), local_flag(), remote_flag(), allow_listen_flag(), allow_forward_flag()];
        assert(r@ =~= spec_tunnel_flags());
        r
    } else {
        Vec::new()
    }
}

/// The lines for a flag that was not accepted: the description of the flags,
/// where help was asked for, and the error.
#[derive(Debug)]
pub struct FlagReport {
    pub usage: Option<String>,
    pub error: String,
}

/// What to print when the flags of `set_name` were not accepted.
pub fn report_flag_error(set_name: &str, err: &FlagsError) -> (r: FlagReport)
    ensures
        match err@ {
            FlagsErrorView::Help => r.usage is Some && r.usage->0@
                == crate::flags::spec_flagset_usage(set_name@, spec_flags_for(set_name@))
                && r.error@ == "flag: flag: help requested"@,
            FlagsErrorView::Message(m) => r.usage is None && r.error@ == "flag: "@ + m,
        },
{
    match err {
        FlagsError::Help => {
            let specs = flag_specs_for(set_name);
            FlagReport {
                usage: Some(crate::flags::flagset_usage(set_name, specs.as_slice())),
                error: "flag: flag: help requested".to_owned(),
            }
        },
        FlagsError::Message(m) => FlagReport { usage: None, error: join2("flag: ", m.as_str()) },
    }
}

} // verus!
